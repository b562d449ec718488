use rchtmltopdf::clock::Clock;
use rchtmltopdf::document::Input;
use rchtmltopdf::plan::{
    band_load, band_policy, band_prepare, band_print, band_rules, context, emulate_media,
    file_access, finish, launch, measure_prepare, outline_wanted, page_box, prepare, print, reserve,
    rules, sides, sized_by_its_document, takes_cookies, toc, viewport, Command, Injection, LoadPlan,
    Plan, Print, Settle,
};
use rchtmltopdf::settings::{
    GlobalSettings, Length, LoadSettings, Margins, MediaType, NamedMargins, ObjectKind,
    ObjectSettings, Orientation, OutlineSettings, PageSetup, Pair, Real, WebSettings,
};
use serde_json::Value;

fn page_object() -> ObjectSettings {
    ObjectSettings::page(Input::Stdin)
}

fn prepared(web: WebSettings) -> Vec<Command> {
    let object = ObjectSettings {
        web,
        ..page_object()
    };
    prepare(&object, "https://example.com/doc")
}

fn methods(commands: &[Command]) -> Vec<&str> {
    commands.iter().map(|command| command.method).collect()
}

fn params(command: &Command) -> Value {
    serde_json::from_str(&command.params).expect("parameters are JSON")
}

fn length(text: &str) -> Length {
    Length::parse(text).unwrap()
}

/// What an edge of the paper comes to, in millimetres.
fn millimetres(edge: &rchtmltopdf::plan::EdgeSum) -> f64 {
    let value = |number: &Real| number.as_str().parse::<f64>().unwrap();
    let margin = match &edge.margin {
        Some(margin) => {
            assert_eq!(margin.unit, rchtmltopdf::settings::Unit::Mm);
            value(&margin.amount)
        }
        None => 0.0,
    };
    let gap = edge.gap.as_ref().map_or(0.0, value);
    let reserved: f64 = edge.reserved.iter().map(value).sum();
    margin + gap + reserved * 25.4
}

#[test]
fn the_two_domains_are_enabled_before_anything_is_expected_of_them() {
    let commands = prepared(WebSettings::default());
    let methods: Vec<&str> = commands.iter().map(|command| command.method).collect();
    assert_eq!(
        methods,
        [
            "Page.enable",
            "Network.enable",
            "Emulation.setEmulatedMedia",
            "Emulation.setDeviceMetricsOverride",
        ]
    );
}

#[test]
fn the_window_is_the_one_wkhtmltopdf_emulated_unless_asked_otherwise() {
    let default = params(&viewport(&WebSettings::default()));
    assert_eq!(default["width"], 1024);
    assert_eq!(default["height"], 768);
    let asked = params(&viewport(&WebSettings {
        viewport: (1280, 1024),
        ..WebSettings::default()
    }));
    assert_eq!(asked["width"], 1280);
    assert_eq!(asked["deviceScaleFactor"], 1);
    assert_eq!(asked["mobile"], false);
}

#[test]
fn the_font_floor_and_images_are_launch_decisions() {
    let global = GlobalSettings::default();
    let mut object = page_object();
    assert_eq!(launch(&global, &object).minimum_font_size, None);
    assert!(!launch(&global, &object).no_images);
    object.web.minimum_font_size = Some(9);
    object.web.images = false;
    let options = launch(&global, &object);
    assert_eq!(options.minimum_font_size, Some(9));
    assert!(options.no_images);
}

#[test]
fn screen_stylesheets_are_asked_for_by_default() {
    assert_eq!(
        emulate_media(&WebSettings::default()).params,
        r#"{"media":"screen"}"#
    );
    let print_media = WebSettings {
        media_type: MediaType::Print,
        ..WebSettings::default()
    };
    assert_eq!(emulate_media(&print_media).params, r#"{"media":"print"}"#);
}

#[test]
fn scripting_is_only_mentioned_when_it_is_being_turned_off() {
    let allowed = prepared(WebSettings::default());
    assert!(!allowed
        .iter()
        .any(|command| command.method == "Emulation.setScriptExecutionDisabled"));
    let refused = prepared(WebSettings {
        javascript: false,
        ..WebSettings::default()
    });
    assert_eq!(
        refused.last().unwrap(),
        &Command::new(
            "Emulation.setScriptExecutionDisabled",
            r#"{"value":true}"#.into()
        )
    );
}

fn with_header_document() -> ObjectSettings {
    let mut object = page_object();
    object.header.html = Some("header.html".into());
    object.header.spacing = Some(Real::parse("5").unwrap());
    object
}

fn margin_top(print: &Print) -> f64 {
    millimetres(&print.top)
}

#[test]
fn a_band_document_replaces_a_margin_that_was_not_written() {
    let command = print(
        &PageSetup::default(),
        &with_header_document(),
        &OutlineSettings::default(),
    );
    assert!((margin_top(&command) - 5.0).abs() < 1e-9, "{command:?}");
    let bottom = millimetres(&command.bottom);
    assert!((bottom - 10.0).abs() < 1e-9, "{command:?}");
    let width = command.width.clone();
    let reserved = reserve(
        command,
        Real::parse(&format!("{}", 20.0 / 25.4)).unwrap(),
        Real::parse("0").unwrap(),
    );
    assert!((margin_top(&reserved) - 25.0).abs() < 1e-9, "{reserved:?}");
    assert_eq!(reserved.width, width);
}

#[test]
fn a_band_document_is_fitted_into_a_margin_that_was_written() {
    let named = PageSetup {
        margins: Margins {
            top: length("15mm"),
            ..Default::default()
        },
        named: NamedMargins {
            top: true,
            bottom: false,
        },
        ..PageSetup::default()
    };
    let command = print(&named, &with_header_document(), &OutlineSettings::default());
    assert!((margin_top(&command) - 20.0).abs() < 1e-9, "{command:?}");
    assert!(!sized_by_its_document(&with_header_document().header, true));
    assert!(sized_by_its_document(&with_header_document().header, false));
}

#[test]
fn a_band_document_asks_for_the_outline() {
    let none = OutlineSettings {
        enabled: false,
        ..OutlineSettings::default()
    };
    assert!(!outline_wanted(&none, &page_object()));
    assert!(outline_wanted(&none, &with_header_document()));
}

#[test]
fn a_band_document_is_measured_at_the_content_width() {
    let commands = measure_prepare(&WebSettings::default(), 718, 1046);
    let metrics = commands
        .iter()
        .find(|command| command.method == "Emulation.setDeviceMetricsOverride")
        .expect("a viewport");
    assert_eq!(params(metrics)["width"], 718);
    assert!(methods(&commands).contains(&"Emulation.setEmulatedMedia"));
}

#[test]
fn the_sheets_get_the_union_of_the_objects_file_rules() {
    let mut opened = page_object();
    opened.web.local_file_access = true;
    let mut allowed = page_object();
    allowed.web.allowed_paths.push("/srv/assets".into());
    let policy = band_policy(&vec![opened, allowed]);
    assert!(policy.enabled);
    assert_eq!(policy.allowed, vec!["/srv/assets".to_string()]);
    assert!(!band_policy(&vec![page_object()]).enabled);
}

#[test]
fn orientation_is_in_the_paper_and_not_in_the_flag() {
    let landscape = PageSetup {
        orientation: Orientation::Landscape,
        ..PageSetup::default()
    };
    let command = print(&landscape, &page_object(), &OutlineSettings::default());
    assert_eq!(command.width, length("297mm"));
    assert_eq!(sides(&landscape).1, length("210mm"));
}

#[test]
fn a_stylesheet_is_a_file_to_read_or_a_url_to_fetch() {
    let mut load = LoadSettings::default();
    assert_eq!(LoadPlan::new(&load).inject, None);
    load.user_style_sheet = Some("/srv/print.css".into());
    assert_eq!(
        LoadPlan::new(&load).inject,
        Some(Injection::File("/srv/print.css".into()))
    );
    load.user_style_sheet = Some("https://example.com/print.css".into());
    assert_eq!(
        LoadPlan::new(&load).inject,
        Some(Injection::Link("https://example.com/print.css".into()))
    );
    load.user_style_sheet = Some(r"C:\styles\print.css".into());
    assert!(matches!(
        LoadPlan::new(&load).inject,
        Some(Injection::File(_))
    ));
}

#[test]
fn scripts_keep_the_order_they_were_written_in() {
    let load = LoadSettings {
        run_scripts: vec!["first()".into(), "second()".into()],
        ..LoadSettings::default()
    };
    assert_eq!(LoadPlan::new(&load).scripts, ["first()", "second()"]);
}

#[test]
fn a_named_status_replaces_the_delay_rather_than_adding_to_it() {
    let mut load = LoadSettings::default();
    assert_eq!(LoadPlan::new(&load).settle, Settle::Delay(200));
    load.window_status = Some("ready".into());
    assert_eq!(
        LoadPlan::new(&load).settle,
        Settle::WindowStatus("ready".into())
    );
}

#[test]
fn cookies_are_set_before_the_document_is_asked_for_and_decoded() {
    let web = WebSettings {
        cookies: vec![Pair {
            name: "session".into(),
            value: "abc%20def".into(),
        }],
        ..WebSettings::default()
    };
    let commands = prepared(web.clone());
    let cookies = commands
        .iter()
        .find(|command| command.method == "Network.setCookies")
        .expect("a cookie should be set");
    let first = &params(cookies)["cookies"][0];
    assert_eq!(first["value"], "abc def");
    assert_eq!(first["url"], "https://example.com/doc");
    let object = ObjectSettings {
        web,
        ..page_object()
    };
    assert!(
        !methods(&prepare(&object, "file:///doc.html")).contains(&"Network.setCookies"),
        "a file:// document takes no cookies"
    );
    assert!(takes_cookies("http://x/"));
    assert!(!takes_cookies("file:///doc.html"));
}

fn rules_of(object: &ObjectSettings, url: &str) -> rchtmltopdf::intercept::Rules {
    rules(object, url, object.web.allowed_paths.clone(), None)
}

#[test]
fn propagation_decides_which_layer_carries_the_header() {
    let header = Pair {
        name: "X-Tenant".into(),
        value: "acme".into(),
    };
    let mut web = WebSettings {
        custom_headers: vec![header.clone()],
        ..WebSettings::default()
    };
    let object = ObjectSettings {
        web: web.clone(),
        ..page_object()
    };
    assert!(!methods(&prepared(web.clone())).contains(&"Network.setExtraHTTPHeaders"));
    assert_eq!(
        rules_of(&object, "https://example.com/doc").document_headers,
        [header]
    );
    web.propagate_custom_headers = true;
    let object = ObjectSettings {
        web: web.clone(),
        ..page_object()
    };
    assert!(methods(&prepared(web)).contains(&"Network.setExtraHTTPHeaders"));
    assert!(
        rules_of(&object, "https://example.com/doc")
            .document_headers
            .is_empty(),
        "the handler has nothing left to add"
    );
}

#[test]
fn either_half_of_the_credentials_arms_the_handler() {
    let object = |web| ObjectSettings {
        web,
        ..page_object()
    };
    let url = "https://example.com/doc";
    assert!(rules_of(&object(WebSettings::default()), url)
        .credentials
        .is_none());
    for web in [
        WebSettings {
            username: Some("bob".into()),
            ..WebSettings::default()
        },
        WebSettings {
            password: Some("hunter2".into()),
            ..WebSettings::default()
        },
    ] {
        assert!(rules_of(&object(web), url).credentials.is_some());
    }
}

#[test]
fn the_file_policy_carries_what_the_command_line_asked_for() {
    let open = file_access(&WebSettings {
        local_file_access: true,
        allowed_paths: vec!["/srv/assets".into()],
        ..WebSettings::default()
    });
    assert!(open.enabled);
    assert_eq!(open.allowed, ["/srv/assets"]);
    assert!(!file_access(&WebSettings::default()).enabled);
}

#[test]
fn letting_slow_scripts_run_is_a_launch_decision() {
    let global = GlobalSettings::default();
    let mut object = page_object();
    assert!(!launch(&global, &object).allow_slow_scripts);
    object.load.stop_slow_scripts = false;
    assert!(launch(&global, &object).allow_slow_scripts);
}

#[test]
fn a_page_and_its_bands_leave_their_names_in_the_plan() {
    let mut object = page_object();
    object.input = Some(Input::classify("doc.html"));
    object.kind = ObjectKind::Cover;
    let global = GlobalSettings {
        title: Some("Report".into()),
        timeout: Some(30),
        ..GlobalSettings::default()
    };
    let plan = Plan::new(
        &global,
        &object,
        Clock::default(),
        "file:///doc.html",
        vec![],
        Some("/doc.html".into()),
    );
    assert_eq!(plan.deadline, Some(30));
    assert_eq!(plan.context.webpage, "doc.html");
    assert_eq!(plan.context.title, "Report");
    assert!(!plan.finish.numbering.counted);
    assert_eq!(plan.toc, None);
    assert!(plan.requests.needed());
    assert_eq!(context(&global, &object, Clock::default()).title, "Report");
    assert_eq!(
        finish(&global, &object, "file:///doc.html").document_url,
        "file:///doc.html"
    );
    object.kind = ObjectKind::Toc;
    assert!(toc(&object).is_some());
}

#[test]
fn the_sheets_are_printed_to_the_edges() {
    let sheet = band_print(&PageSetup::default());
    assert_eq!(sheet.left, None);
    assert_eq!(millimetres(&sheet.top), 0.0);
    assert!(!sheet.outline);
    assert_eq!(band_load(900).javascript_delay, 900);
    assert!(methods(&band_prepare(None)).contains(&"Page.enable"));
    let policy = band_policy(&vec![page_object()]);
    let files = policy.about("file:///bands.html", vec![], Some("/bands.html".into()));
    let rules = band_rules(files, "file:///bands.html", vec!["/header.html".into()]);
    assert_eq!(rules.document, "file:///bands.html");
    assert_eq!(
        page_box("1mm", "2mm", "3mm", "4mm"),
        "@page { margin: 1mm 2mm 3mm 4mm }"
    );
}

#[test]
fn a_header_that_is_written_twice_is_sent_once_with_its_last_value() {
    let pair = |name: &str, value: &str| Pair {
        name: name.into(),
        value: value.into(),
    };
    let commands = prepared(WebSettings {
        custom_headers: vec![pair("X-A", "1"), pair("X-B", "2"), pair("X-A", "3")],
        propagate_custom_headers: true,
        ..WebSettings::default()
    });
    let headers = commands
        .iter()
        .find(|command| command.method == "Network.setExtraHTTPHeaders")
        .unwrap();
    assert_eq!(headers.params, r#"{"headers":{"X-B":"2","X-A":"3"}}"#);
}

#[test]
fn the_offset_of_the_run_shifts_every_object() {
    let global = GlobalSettings {
        page_offset: 5,
        ..GlobalSettings::default()
    };
    let finishing = finish(&global, &page_object(), "https://example.com/");
    assert_eq!(finishing.numbering.page_offset, 5);
    assert!(finishing.numbering.counted);
}
