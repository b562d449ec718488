//! Headers and footers as HTML.
//!
//! Bands are printed on sheets of their own and laid over the pages. A size is
//! a text that spells a number, in the unit that its name says.

use crate::numbering::{Numbers, NumbersView};
use crate::placeholder::{escape, expand, expanded, html, Context, ContextView};
use crate::settings::{band_is_empty, Band, BandView, NamedMargins};
use crate::text::maybe;
use vstd::prelude::*;

verus! {

/// The font of a band that names none.
pub const FONT: &'static str = "Arial";

/// The size of a band that names none, in points.
pub const SIZE_PT: &'static str = "12";

/// How every row opens.
pub const ROW_OPENS: &'static str = "<div style=\"-webkit-print-color-adjust:exact;print-color-adjust:exact;box-sizing:border-box;width:100%;margin:0;padding-left:";

/// How the left cell opens.
pub const CELL_LEFT: &'static str = "<div style=\"flex:1 1 0;text-align:left;white-space:pre\">";

/// How the middle cell opens.
pub const CELL_CENTER: &'static str = "</div><div style=\"flex:1 1 0;text-align:center;white-space:pre\">";

/// How the right cell opens.
pub const CELL_RIGHT: &'static str = "</div><div style=\"flex:1 1 0;text-align:right;white-space:pre\">";

/// Which edge of the sheet a band is at.
#[derive(Clone, Copy, Debug, PartialEq, Eq)]
pub enum Edge {
    Header,
    Footer,
}

/// The bands of one page.
#[derive(Debug, PartialEq, Eq)]
pub struct Sheet {
    pub header: String,
    pub footer: String,
}

impl Default for Sheet {
    fn default() -> (sheet: Sheet)
        ensures
            sheet.header@ == Seq::<char>::empty(),
            sheet.footer@ == Seq::<char>::empty(),
    {
        Sheet { header: String::new(), footer: String::new() }
    }
}

/// The sizes of a row: how far it is set in, and its letters.
#[derive(Debug, PartialEq, Eq)]
pub struct RowSizes {
    pub left_mm: String,
    pub right_mm: String,
    /// The size that the band asks for, where it asks for one.
    pub size_pt: Option<String>,
}

/// A cell of a band, as HTML.
pub open spec fn cell_html(
    text: Option<Seq<char>>,
    context: ContextView,
    numbers: NumbersView,
) -> Seq<char> {
    match text {
        Some(text) => expanded(text, context, numbers),
        None => Seq::empty(),
    }
}

/// The line between a band and the content.
pub open spec fn rule_style(line: bool, edge: Edge) -> Seq<char> {
    if !line {
        ""@
    } else {
        match edge {
            Edge::Header => "border-bottom:0.5pt solid #000;"@,
            Edge::Footer => "border-top:0.5pt solid #000;"@,
        }
    }
}

/// How a row opens: its place, its font and its line.
pub open spec fn row_style(band: BandView, edge: Edge, sizes: RowSizes) -> Seq<char> {
    ROW_OPENS@ + sizes.left_mm@ + "mm;padding-right:"@ + sizes.right_mm@ + "mm;font-family:"@
        + html(
        match band.font_name {
            Some(name) => name,
            None => FONT@,
        },
    ) + ";font-size:"@ + (match sizes.size_pt {
        Some(size) => size@,
        None => SIZE_PT@,
    }) + "pt;color:#000;display:flex;align-items:baseline;"@ + rule_style(band.line, edge) + "\">"@
}

/// The cells of a row.
pub open spec fn row_cells(
    band: BandView,
    context: ContextView,
    numbers: NumbersView,
) -> Seq<char> {
    CELL_LEFT@ + cell_html(band.left, context, numbers) + CELL_CENTER@ + cell_html(
        band.center,
        context,
        numbers,
    ) + CELL_RIGHT@ + cell_html(band.right, context, numbers) + "</div></div>"@
}

/// A band as a row of three cells. A band that draws nothing is no row.
pub open spec fn row_html(
    band: BandView,
    edge: Edge,
    sizes: RowSizes,
    context: ContextView,
    numbers: NumbersView,
) -> Seq<char> {
    if band_is_empty(band) {
        Seq::empty()
    } else {
        row_style(band, edge, sizes) + row_cells(band, context, numbers)
    }
}

fn cell(text: &Option<String>, context: &Context, numbers: &Numbers) -> (out: String)
    ensures
        out@ == cell_html(maybe(*text), context@, numbers@),
{
    match text {
        Some(text) => expand(text, context, numbers),
        None => String::new(),
    }
}

fn style(band: &Band, edge: Edge, sizes: &RowSizes) -> (out: String)
    ensures
        out@ == row_style(band@, edge, *sizes),
{
    let family = match &band.font_name {
        Some(name) => escape(name),
        None => escape(FONT),
    };
    let rule = if !band.line {
        ""
    } else {
        match edge {
            Edge::Header => "border-bottom:0.5pt solid #000;",
            Edge::Footer => "border-top:0.5pt solid #000;",
        }
    };
    let mut out = ROW_OPENS.to_owned();
    out.push_str(&sizes.left_mm);
    out.push_str("mm;padding-right:");
    out.push_str(&sizes.right_mm);
    out.push_str("mm;font-family:");
    out.push_str(&family);
    out.push_str(";font-size:");
    match &sizes.size_pt {
        Some(size) => out.push_str(size),
        None => out.push_str(SIZE_PT),
    }
    out.push_str("pt;color:#000;display:flex;align-items:baseline;");
    out.push_str(rule);
    out.push_str("\">");
    out
}

fn cells(band: &Band, context: &Context, numbers: &Numbers) -> (out: String)
    ensures
        out@ == row_cells(band@, context@, numbers@),
{
    let mut out = CELL_LEFT.to_owned();
    out.push_str(&cell(&band.left, context, numbers));
    out.push_str(CELL_CENTER);
    out.push_str(&cell(&band.center, context, numbers));
    out.push_str(CELL_RIGHT);
    out.push_str(&cell(&band.right, context, numbers));
    out.push_str("</div></div>");
    out
}

/// Write a band as a row of three cells.
pub fn row(band: &Band, edge: Edge, sizes: &RowSizes, context: &Context, numbers: &Numbers) -> (out:
    String)
    ensures
        out@ == row_html(band@, edge, *sizes, context@, numbers@),
{
    if band.is_empty() {
        return String::new();
    }
    let mut out = style(band, edge, sizes);
    out.push_str(&cells(band, context, numbers));
    out
}

/// The sizes of a frame that a band document is shown in.
#[derive(Debug, PartialEq, Eq)]
pub struct FrameSizes {
    pub left_mm: String,
    pub right_mm: String,
    /// The margin at the frame's edge of the sheet.
    pub margin_mm: String,
    /// How high the document is once it is scaled.
    pub painted_mm: String,
    /// What the margin has left once the document is painted; less than nothing
    /// where it is too high.
    pub spare_mm: String,
    /// How wide the document is laid out before it is scaled.
    pub laid_out_mm: String,
    /// How far the document reaches down before it is scaled.
    pub extent_mm: String,
    pub zoom: String,
}

/// Whether the margin at an edge was written on the command line.
pub open spec fn is_named(edge: Edge, named: NamedMargins) -> bool {
    match edge {
        Edge::Header => named.top,
        Edge::Footer => named.bottom,
    }
}

/// How high the box of a frame is: a margin that was written, or the document.
pub open spec fn box_of(edge: Edge, named: NamedMargins, sizes: FrameSizes) -> Seq<char> {
    if is_named(edge, named) {
        sizes.margin_mm@
    } else {
        sizes.painted_mm@
    }
}

/// How far the document is pushed down in its box: a header sits on the content,
/// and so does a footer, which begins there.
pub open spec fn offset_of(edge: Edge, named: NamedMargins, sizes: FrameSizes) -> Seq<char> {
    match edge {
        Edge::Header => if named.top {
            sizes.spare_mm@
        } else {
            "0"@
        },
        Edge::Footer => "0"@,
    }
}

/// Which way a box is held.
pub open spec fn anchor_of(edge: Edge) -> Seq<char> {
    match edge {
        Edge::Header => "margin-bottom:auto;"@,
        Edge::Footer => "margin-top:auto;"@,
    }
}

/// A band document in a frame.
pub open spec fn frame_html(
    url: Seq<char>,
    edge: Edge,
    named: NamedMargins,
    sizes: FrameSizes,
) -> Seq<char> {
    "<div style=\"box-sizing:border-box;width:100%;height:"@ + box_of(edge, named, sizes)
        + "mm;padding-left:"@ + sizes.left_mm@ + "mm;padding-right:"@ + sizes.right_mm@ + "mm;"@
        + anchor_of(edge) + "\"><iframe src=\""@ + html(url)
        + "\" style=\"display:block;border:0;margin:"@ + offset_of(edge, named, sizes)
        + "mm 0 0 0;padding:0;width:"@ + sizes.laid_out_mm@ + "mm;height:"@ + sizes.extent_mm@
        + "mm;transform:scale("@ + sizes.zoom@
        + ");transform-origin:top left\"></iframe></div>"@
}

/// Show a band document in a frame.
pub fn frame(url: &str, edge: Edge, named: NamedMargins, sizes: &FrameSizes) -> (out: String)
    ensures
        out@ == frame_html(url@, edge, named, *sizes),
{
    let is_named = match edge {
        Edge::Header => named.top,
        Edge::Footer => named.bottom,
    };
    let height = if is_named {
        sizes.margin_mm.as_str()
    } else {
        sizes.painted_mm.as_str()
    };
    let offset = match edge {
        Edge::Header => if named.top {
            sizes.spare_mm.as_str()
        } else {
            "0"
        },
        Edge::Footer => "0",
    };
    let anchor = match edge {
        Edge::Header => "margin-bottom:auto;",
        Edge::Footer => "margin-top:auto;",
    };
    let mut out = "<div style=\"box-sizing:border-box;width:100%;height:".to_owned();
    out.push_str(height);
    out.push_str("mm;padding-left:");
    out.push_str(&sizes.left_mm);
    out.push_str("mm;padding-right:");
    out.push_str(&sizes.right_mm);
    out.push_str("mm;");
    out.push_str(anchor);
    out.push_str("\"><iframe src=\"");
    out.push_str(&escape(url));
    out.push_str("\" style=\"display:block;border:0;margin:");
    out.push_str(offset);
    out.push_str("mm 0 0 0;padding:0;width:");
    out.push_str(&sizes.laid_out_mm);
    out.push_str("mm;height:");
    out.push_str(&sizes.extent_mm);
    out.push_str("mm;transform:scale(");
    out.push_str(&sizes.zoom);
    out.push_str(");transform-origin:top left\"></iframe></div>");
    out
}

/// The sizes of a sheet and of the margins that its bands fill.
#[derive(Debug, PartialEq, Eq)]
pub struct SheetSizes {
    pub width_mm: String,
    pub height_mm: String,
    pub top_mm: String,
    pub bottom_mm: String,
}

/// A band in its place on the sheet. An empty one takes none.
pub open spec fn placed_band(class: Seq<char>, band: Seq<char>) -> Seq<char> {
    if band.len() == 0 {
        Seq::empty()
    } else {
        "<div class=\""@ + class + "\">"@ + band + "</div>"@
    }
}

/// One sheet.
pub open spec fn sheet_html(sheet: Sheet) -> Seq<char> {
    "<div class=\"sheet\">"@ + placed_band("header"@, sheet.header@) + placed_band(
        "footer"@,
        sheet.footer@,
    ) + "</div>\n"@
}

/// Every sheet, in order.
pub open spec fn sheets_html(sheets: Seq<Sheet>) -> Seq<char>
    decreases sheets.len(),
{
    if sheets.len() == 0 {
        Seq::empty()
    } else {
        sheets_html(sheets.drop_last()) + sheet_html(sheets.last())
    }
}

/// How a document of sheets opens.
pub open spec fn sheets_head(sizes: SheetSizes) -> Seq<char> {
    "<!doctype html>\n<html><head><meta charset=\"utf-8\"><title>bands</title><style>\n@page { size: "@
        + sizes.width_mm@ + "mm "@ + sizes.height_mm@
        + "mm; margin: 0; }\nhtml, body { margin: 0; padding: 0; }\n.sheet { position: relative; width: "@
        + sizes.width_mm@ + "mm; height: "@ + sizes.height_mm@
        + "mm; overflow: hidden; page-break-after: always; }\n.sheet:last-child { page-break-after: auto; }\n.header, .footer { position: absolute; left: 0; right: 0; display: flex; flex-direction: column; }\n.header { top: 0; min-height: "@
        + sizes.top_mm@ + "mm; justify-content: flex-end; }\n.footer { bottom: 0; min-height: "@
        + sizes.bottom_mm@ + "mm; justify-content: flex-start; }\n</style></head><body>\n"@
}

/// A document of sheets, one for each page.
pub open spec fn document_html(sizes: SheetSizes, sheets: Seq<Sheet>) -> Seq<char> {
    sheets_head(sizes) + sheets_html(sheets) + "</body></html>\n"@
}

fn push_band(out: &mut String, class: &str, band: &str)
    ensures
        final(out)@ == old(out)@ + placed_band(class@, band@),
{
    let ghost before = out@;
    let size: usize = crate::text::chars_of(band).len();
    if size > 0 {
        out.push_str("<div class=\"");
        out.push_str(class);
        out.push_str("\">");
        out.push_str(band);
        out.push_str("</div>");
    }
    assert(out@ =~= before + placed_band(class@, band@));
}

fn push_sheet(out: &mut String, sheet: &Sheet)
    ensures
        final(out)@ == old(out)@ + sheet_html(*sheet),
{
    let ghost before = out@;
    out.push_str("<div class=\"sheet\">");
    push_band(out, "header", &sheet.header);
    push_band(out, "footer", &sheet.footer);
    out.push_str("</div>\n");
    assert(out@ =~= before + sheet_html(*sheet));
}

fn head(sizes: &SheetSizes) -> (out: String)
    ensures
        out@ == sheets_head(*sizes),
{
    let mut out =
        "<!doctype html>\n<html><head><meta charset=\"utf-8\"><title>bands</title><style>\n@page { size: ".to_owned();
    out.push_str(&sizes.width_mm);
    out.push_str("mm ");
    out.push_str(&sizes.height_mm);
    out.push_str(
        "mm; margin: 0; }\nhtml, body { margin: 0; padding: 0; }\n.sheet { position: relative; width: ",
    );
    out.push_str(&sizes.width_mm);
    out.push_str("mm; height: ");
    out.push_str(&sizes.height_mm);
    out.push_str(
        "mm; overflow: hidden; page-break-after: always; }\n.sheet:last-child { page-break-after: auto; }\n.header, .footer { position: absolute; left: 0; right: 0; display: flex; flex-direction: column; }\n.header { top: 0; min-height: ",
    );
    out.push_str(&sizes.top_mm);
    out.push_str("mm; justify-content: flex-end; }\n.footer { bottom: 0; min-height: ");
    out.push_str(&sizes.bottom_mm);
    out.push_str("mm; justify-content: flex-start; }\n</style></head><body>\n");
    out
}

/// Write a document of sheets, one for each page.
pub fn document(sizes: &SheetSizes, sheets: &Vec<Sheet>) -> (out: String)
    ensures
        out@ == document_html(*sizes, sheets@),
{
    let mut out = head(sizes);
    let ghost start = out@;
    let size: usize = sheets.len();
    let mut at: usize = 0;
    assert(sheets@.take(0) =~= Seq::empty());
    assert(out@ =~= start + sheets_html(sheets@.take(0)));
    while at < size
        invariant
            at <= size == sheets@.len(),
            out@ == start + sheets_html(sheets@.take(at as int)),
        decreases size - at,
    {
        let ghost before = sheets_html(sheets@.take(at as int));
        assert(sheets@.take(at + 1).drop_last() =~= sheets@.take(at as int));
        assert(sheets@.take(at + 1).last() == sheets@[at as int]);
        push_sheet(&mut out, &sheets[at]);
        assert(out@ =~= start + (before + sheet_html(sheets@[at as int])));
        at = at + 1;
    }
    assert(sheets@.take(at as int) =~= sheets@);
    out.push_str("</body></html>\n");
    out
}

/// What a band spaces itself from the content by never shows in its row.
pub proof fn law_spacing_is_no_part_of_a_row(
    band: BandView,
    spacing: Option<Seq<char>>,
    edge: Edge,
    sizes: RowSizes,
    context: ContextView,
    numbers: NumbersView,
)
    ensures
        row_html(BandView { spacing, ..band }, edge, sizes, context, numbers) == row_html(
            band,
            edge,
            sizes,
            context,
            numbers,
        ),
{
}

/// A row shows its three cells from left to right, each with its own text in it, expanded
/// for the page; a cell that was not asked for is empty.
pub proof fn law_a_row_shows_its_cells(
    band: BandView,
    edge: Edge,
    sizes: RowSizes,
    context: ContextView,
    numbers: NumbersView,
)
    requires
        band.left is Some || band.center is Some || band.right is Some || band.line,
    ensures
        exists|opens: Seq<char>|
            row_html(band, edge, sizes, context, numbers) == #[trigger] (opens
                + "<div style=\"flex:1 1 0;text-align:left;white-space:pre\">"@) + (if band.left
                is Some {
                expanded(band.left->0, context, numbers)
            } else {
                Seq::empty()
            }) + "</div><div style=\"flex:1 1 0;text-align:center;white-space:pre\">"@ + (
            if band.center is Some {
                expanded(band.center->0, context, numbers)
            } else {
                Seq::empty()
            }) + "</div><div style=\"flex:1 1 0;text-align:right;white-space:pre\">"@ + (
            if band.right is Some {
                expanded(band.right->0, context, numbers)
            } else {
                Seq::empty()
            }) + "</div></div>"@,
{
    let opens = row_style(band, edge, sizes);
    let one = cell_html(band.left, context, numbers);
    let two = cell_html(band.center, context, numbers);
    let three = cell_html(band.right, context, numbers);
    assert(row_html(band, edge, sizes, context, numbers) =~= (opens + CELL_LEFT@) + one
        + CELL_CENTER@ + two + CELL_RIGHT@ + three + "</div></div>"@);
}

/// A band without a cell, a document or a line is no row at all.
pub proof fn law_an_empty_band_is_no_row(
    band: BandView,
    edge: Edge,
    sizes: RowSizes,
    context: ContextView,
    numbers: NumbersView,
)
    ensures
        band.left is None && band.center is None && band.right is None && band.html is None
            && !band.line <==> row_html(band, edge, sizes, context, numbers).len() == 0,
{
    reveal_strlit("</div></div>");
}

/// A row is set in on both sides by what it is told, in the font of the band or the usual
/// one, in its size or the usual one; and its line, if it has one, is on the side of the
/// content.
pub proof fn law_how_a_row_looks(band: BandView, edge: Edge, sizes: RowSizes)
    ensures
        row_style(band, edge, sizes)
            == "<div style=\"-webkit-print-color-adjust:exact;print-color-adjust:exact;box-sizing:border-box;width:100%;margin:0;padding-left:"@
            + sizes.left_mm@ + "mm;padding-right:"@ + sizes.right_mm@ + "mm;font-family:"@ + (
        if band.font_name is Some {
            html(band.font_name->0)
        } else {
            html("Arial"@)
        }) + ";font-size:"@ + (if sizes.size_pt is Some {
            sizes.size_pt->0@
        } else {
            "12"@
        }) + "pt;color:#000;display:flex;align-items:baseline;"@ + (if !band.line {
            Seq::empty()
        } else if edge is Header {
            "border-bottom:0.5pt solid #000;"@
        } else {
            "border-top:0.5pt solid #000;"@
        }) + "\">"@,
{
    reveal_strlit("");
    assert(""@ =~= Seq::empty());
}

/// A band document stands in a box as high as the margin where that was written and as
/// high as itself where it was not; a header is pushed down to the content by what a
/// written margin leaves, and a footer begins there.
pub proof fn law_where_a_frame_stands(
    url: Seq<char>,
    edge: Edge,
    named: NamedMargins,
    sizes: FrameSizes,
)
    ensures
        ({
            let written = if edge is Header {
                named.top
            } else {
                named.bottom
            };
            frame_html(url, edge, named, sizes)
                == "<div style=\"box-sizing:border-box;width:100%;height:"@ + (if written {
                sizes.margin_mm@
            } else {
                sizes.painted_mm@
            }) + "mm;padding-left:"@ + sizes.left_mm@ + "mm;padding-right:"@ + sizes.right_mm@
                + "mm;"@ + (if edge is Header {
                "margin-bottom:auto;"@
            } else {
                "margin-top:auto;"@
            }) + "\"><iframe src=\""@ + html(url) + "\" style=\"display:block;border:0;margin:"@ + (
            if edge is Header && written {
                sizes.spare_mm@
            } else {
                "0"@
            }) + "mm 0 0 0;padding:0;width:"@ + sizes.laid_out_mm@ + "mm;height:"@ + sizes.extent_mm@
                + "mm;transform:scale("@ + sizes.zoom@
                + ");transform-origin:top left\"></iframe></div>"@
        }),
{
}

/// The sheets follow each other in the order of the pages, and each holds its own header
/// and its own footer, where it has them.
pub proof fn law_sheets_follow_each_other(first: Seq<Sheet>, second: Seq<Sheet>, sheet: Sheet)
    ensures
        sheets_html(first + second) == sheets_html(first) + sheets_html(second),
        sheets_html(seq![sheet]) == "<div class=\"sheet\">"@ + (if sheet.header@.len() > 0 {
            "<div class=\""@ + "header"@ + "\">"@ + sheet.header@ + "</div>"@
        } else {
            Seq::empty()
        }) + (if sheet.footer@.len() > 0 {
            "<div class=\""@ + "footer"@ + "\">"@ + sheet.footer@ + "</div>"@
        } else {
            Seq::empty()
        }) + "</div>\n"@,
        sheets_html(Seq::empty()).len() == 0,
    decreases second.len(),
{
    reveal_with_fuel(sheets_html, 2);
    assert(seq![sheet].drop_last() =~= Seq::empty());
    assert(Seq::<char>::empty() + sheet_html(sheet) =~= sheet_html(sheet));
    if second.len() == 0 {
        assert(first + second =~= first);
        assert(sheets_html(first) + sheets_html(second) =~= sheets_html(first));
    } else {
        assert((first + second).drop_last() =~= first + second.drop_last());
        assert((first + second).last() == second.last());
        law_sheets_follow_each_other(first, second.drop_last(), sheet);
        assert(sheets_html(first + second) =~= sheets_html(first) + sheets_html(second));
    }
}

/// A document of sheets holds them all, as large as the paper, with the header at the top
/// and the footer at the bottom, as high as their margins.
pub proof fn law_a_document_of_sheets(sizes: SheetSizes, sheets: Seq<Sheet>)
    ensures
        document_html(sizes, sheets)
            == "<!doctype html>\n<html><head><meta charset=\"utf-8\"><title>bands</title><style>\n@page { size: "@
            + sizes.width_mm@ + "mm "@ + sizes.height_mm@
            + "mm; margin: 0; }\nhtml, body { margin: 0; padding: 0; }\n.sheet { position: relative; width: "@
            + sizes.width_mm@ + "mm; height: "@ + sizes.height_mm@
            + "mm; overflow: hidden; page-break-after: always; }\n.sheet:last-child { page-break-after: auto; }\n.header, .footer { position: absolute; left: 0; right: 0; display: flex; flex-direction: column; }\n.header { top: 0; min-height: "@
            + sizes.top_mm@ + "mm; justify-content: flex-end; }\n.footer { bottom: 0; min-height: "@
            + sizes.bottom_mm@ + "mm; justify-content: flex-start; }\n</style></head><body>\n"@
            + sheets_html(sheets) + "</body></html>\n"@,
{
}

} // verus!
