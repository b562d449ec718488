use rchtmltopdf::band::{document, frame, row, Edge, FrameSizes, RowSizes, Sheet, SheetSizes};
use rchtmltopdf::clock::Clock;
use rchtmltopdf::numbering::Numbers;
use rchtmltopdf::placeholder::Context;
use rchtmltopdf::plan::sides;
use rchtmltopdf::settings::{Band, Length, Margins, NamedMargins, Orientation, PageSetup, Real, Unit};

fn spelled(text: &str) -> Real {
    Real { text: text.to_string() }
}

fn mm(text: &str) -> Length {
    Length { amount: spelled(text), unit: Unit::Mm }
}

fn number(length: &Length) -> f64 {
    assert_eq!(length.unit, Unit::Mm);
    length.amount.as_str().parse().unwrap()
}

fn context() -> Context {
    Context {
        webpage: String::new(),
        title: String::new(),
        replacements: Vec::new(),
        clock: Clock::default(),
    }
}

fn numbers() -> Numbers {
    Numbers {
        page: 0,
        topage: 0,
        frompage: 0,
        sitepage: 0,
        sitepages: 0,
        section: String::new(),
        subsection: String::new(),
        subsubsection: String::new(),
    }
}

fn markup(band: &Band, edge: Edge, left: f64, right: f64) -> String {
    let sizes = RowSizes {
        left_mm: left.to_string(),
        right_mm: right.to_string(),
        size_pt: band.font_size.as_ref().map(|size| {
            let value: f64 = size.as_str().parse().unwrap();
            value.to_string()
        }),
    };
    row(band, edge, &sizes, &context(), &numbers())
}

fn band(center: &str) -> Band {
    Band {
        center: Some(center.to_string()),
        ..Band::default()
    }
}

#[test]
fn an_empty_band_is_no_row_at_all() {
    assert_eq!(markup(&Band::default(), Edge::Footer, 10.0, 10.0), "");
}

#[test]
fn the_font_is_wkhtmltopdfs_default_rather_than_chromiums() {
    let html = markup(&band("x"), Edge::Header, 10.0, 10.0);
    assert!(html.contains("font-family:Arial"), "{html}");
    assert!(html.contains("font-size:12pt"), "{html}");
    assert!(html.contains("color:#000"), "{html}");
}

#[test]
fn the_font_can_be_overridden() {
    let asked = Band {
        font_name: Some("Times New Roman".into()),
        font_size: Some(spelled("8.0")),
        ..band("x")
    };
    let html = markup(&asked, Edge::Header, 10.0, 10.0);
    assert!(html.contains("font-family:Times New Roman"), "{html}");
    assert!(html.contains("font-size:8pt"), "{html}");
}

#[test]
fn the_rule_is_on_the_side_facing_the_content() {
    let ruled = Band {
        line: true,
        ..band("x")
    };
    assert!(markup(&ruled, Edge::Header, 10.0, 10.0).contains("border-bottom"));
    assert!(markup(&ruled, Edge::Footer, 10.0, 10.0).contains("border-top"));
    let plain = markup(&band("x"), Edge::Header, 10.0, 10.0);
    assert!(!plain.contains("border-bottom") && !plain.contains("border-top"));
}

#[test]
fn spacing_does_not_appear_in_the_row_at_all() {
    let spaced = Band {
        spacing: Some(spelled("5.0")),
        ..band("x")
    };
    let html = markup(&spaced, Edge::Header, 10.0, 10.0);
    assert!(!html.contains("5mm"), "{html}");
    assert_eq!(html, markup(&band("x"), Edge::Header, 10.0, 10.0));
}

#[test]
fn the_band_is_inset_to_the_content_width() {
    let html = markup(&band("x"), Edge::Footer, 15.0, 25.0);
    assert!(html.contains("padding-left:15mm"), "{html}");
    assert!(html.contains("padding-right:25mm"), "{html}");
}

#[test]
fn text_is_escaped_so_a_title_cannot_break_the_markup() {
    let nasty = Band {
        left: Some("Tom & Jerry".into()),
        center: Some("<script>alert(1)</script>".into()),
        right: Some("a \"quoted\" thing".into()),
        ..Band::default()
    };
    let html = markup(&nasty, Edge::Header, 10.0, 10.0);
    assert!(html.contains("Tom &amp; Jerry"), "{html}");
    assert!(!html.contains("<script>"), "{html}");
    assert!(html.contains("&lt;script&gt;"), "{html}");
    assert!(html.contains("&quot;quoted&quot;"), "{html}");
}

#[test]
fn a_font_name_cannot_end_the_style_attribute() {
    let injected = Band {
        font_name: Some("Arial\" onload=\"x".into()),
        ..band("x")
    };
    let html = markup(&injected, Edge::Header, 10.0, 10.0);
    assert!(!html.contains("onload=\""), "{html}");
    assert!(html.contains("&quot;"), "{html}");
}

#[test]
fn colours_are_asked_to_print() {
    let html = markup(&band("x"), Edge::Header, 10.0, 10.0);
    assert!(html.contains("print-color-adjust:exact"), "{html}");
}

#[test]
fn the_three_cells_divide_the_width_evenly() {
    let html = markup(&band("x"), Edge::Header, 10.0, 10.0);
    assert_eq!(html.matches("flex:1 1 0").count(), 3, "{html}");
}

#[test]
fn a_row_is_written_out_in_full() {
    let html = markup(&band("x"), Edge::Header, 10.0, 20.0);
    assert_eq!(
        html,
        "<div style=\"-webkit-print-color-adjust:exact;print-color-adjust:exact;\
         box-sizing:border-box;width:100%;margin:0;padding-left:10mm;padding-right:20mm;\
         font-family:Arial;font-size:12pt;color:#000;display:flex;align-items:baseline;\">\
         <div style=\"flex:1 1 0;text-align:left;white-space:pre\"></div>\
         <div style=\"flex:1 1 0;text-align:center;white-space:pre\">x</div>\
         <div style=\"flex:1 1 0;text-align:right;white-space:pre\"></div></div>"
    );
}

/// The sizes of a frame, worked out for a document of one height and extent.
fn framed(url: &str, edge: Edge, paper: &PageSetup, height: f64, extent: f64, zoom: f64) -> String {
    let (left, right) = (number(&paper.margins.left), number(&paper.margins.right));
    let width = (number(&sides(paper).0) - left - right).max(0.0);
    let painted = height * zoom;
    let margin = match edge {
        Edge::Header => number(&paper.margins.top),
        Edge::Footer => number(&paper.margins.bottom),
    };
    let sizes = FrameSizes {
        left_mm: left.to_string(),
        right_mm: right.to_string(),
        margin_mm: margin.to_string(),
        painted_mm: painted.to_string(),
        spare_mm: (margin - painted).to_string(),
        laid_out_mm: (width / zoom).max(0.0).to_string(),
        extent_mm: extent.to_string(),
        zoom: zoom.to_string(),
    };
    frame(url, edge, paper.named, &sizes)
}

fn paper() -> PageSetup {
    PageSetup {
        margins: Margins {
            top: mm("15.0"),
            bottom: mm("20.0"),
            ..Margins::default()
        },
        ..PageSetup::default()
    }
}

#[test]
fn the_frame_is_laid_out_wide_and_painted_down_by_the_zoom() {
    let whole = framed("file:///h.html", Edge::Header, &paper(), 20.0, 22.0, 1.0);
    assert!(whole.contains("transform:scale(1)"), "{whole}");
    let half = framed("file:///h.html", Edge::Header, &paper(), 20.0, 22.0, 0.5);
    assert!(half.contains("transform:scale(0.5)"), "{half}");
    assert!(half.contains("width:380mm"), "{half}");
    assert!(half.contains("height:10mm;"), "{half}");
}

#[test]
fn the_frame_names_the_document_escaped() {
    let html = framed("file:///h.html?title=a%20%26%20b", Edge::Header, &paper(), 20.0, 22.0, 1.0);
    assert!(
        html.contains("<iframe src=\"file:///h.html?title=a%20%26%20b\""),
        "{html}"
    );
    let nasty = framed("x\" onload=\"y", Edge::Header, &paper(), 20.0, 22.0, 1.0);
    assert!(!nasty.contains("onload=\""), "{nasty}");
}

#[test]
fn the_frame_is_inset_to_the_content_width() {
    let html = framed("file:///h.html", Edge::Footer, &paper(), 20.0, 22.0, 1.0);
    assert!(
        html.contains("padding-left:10mm;padding-right:10mm"),
        "{html}"
    );
    assert!(html.contains("width:190mm"), "{html}");
}

#[test]
fn an_unnamed_margin_is_replaced_by_the_documents_height() {
    let html = framed("file:///h.html", Edge::Header, &paper(), 20.0, 22.0, 1.0);
    assert!(html.contains("height:20mm;"), "{html}");
    assert!(html.contains("margin:0mm 0 0 0"), "{html}");
    assert!(html.contains("height:22mm;"), "{html}");
    assert!(html.contains("margin-bottom:auto"), "{html}");
}

#[test]
fn a_named_margin_fits_the_document_against_the_content() {
    let named = PageSetup {
        named: NamedMargins {
            top: true,
            bottom: true,
        },
        ..paper()
    };
    let header = framed("file:///h.html", Edge::Header, &named, 20.0, 22.0, 1.0);
    assert!(header.contains("height:15mm;"), "{header}");
    assert!(header.contains("margin:-5mm 0 0 0"), "{header}");
    let footer = framed("file:///h.html", Edge::Footer, &named, 20.0, 22.0, 1.0);
    assert!(footer.contains("height:20mm;"), "{footer}");
    assert!(footer.contains("margin:0mm 0 0 0"), "{footer}");
    assert!(footer.contains("margin-top:auto"), "{footer}");
}

fn sheet_sizes(paper: &PageSetup) -> SheetSizes {
    let (width, height) = sides(paper);
    SheetSizes {
        width_mm: number(&width).to_string(),
        height_mm: number(&height).to_string(),
        top_mm: number(&paper.margins.top).to_string(),
        bottom_mm: number(&paper.margins.bottom).to_string(),
    }
}

#[test]
fn there_is_one_sheet_per_page_blank_or_not() {
    let sheets = vec![
        Sheet {
            header: "<div>H1</div>".into(),
            footer: String::new(),
        },
        Sheet::default(),
        Sheet {
            header: String::new(),
            footer: "<div>F3</div>".into(),
        },
    ];
    let html = document(&sheet_sizes(&paper()), &sheets);
    assert_eq!(html.matches("class=\"sheet\"").count(), 3, "{html}");
    assert_eq!(html.matches("class=\"header\"").count(), 1, "{html}");
    assert_eq!(html.matches("class=\"footer\"").count(), 1, "{html}");
    assert!(html.contains("H1") && html.contains("F3"));
}

#[test]
fn a_sheet_is_the_papers_size_and_clips() {
    let html = document(&sheet_sizes(&paper()), &vec![Sheet::default()]);
    assert!(
        html.contains("@page { size: 210mm 297mm; margin: 0; }"),
        "{html}"
    );
    assert!(html.contains("width: 210mm; height: 297mm"), "{html}");
    assert!(
        html.contains("overflow: hidden; page-break-after: always"),
        "{html}"
    );
    assert!(html.contains("page-break-after: auto"), "{html}");
}

#[test]
fn a_band_fills_its_margin_from_the_paper_edge() {
    let html = document(&sheet_sizes(&paper()), &vec![Sheet::default()]);
    assert!(
        html.contains(".header { top: 0; min-height: 15mm; justify-content: flex-end; }"),
        "{html}"
    );
    assert!(
        html.contains(".footer { bottom: 0; min-height: 20mm; justify-content: flex-start; }"),
        "{html}"
    );
}

#[test]
fn the_sheet_follows_the_orientation() {
    let landscape = PageSetup {
        orientation: Orientation::Landscape,
        ..PageSetup::default()
    };
    let html = document(&sheet_sizes(&landscape), &vec![Sheet::default()]);
    assert!(
        html.contains("@page { size: 297mm 210mm; margin: 0; }"),
        "{html}"
    );
}
