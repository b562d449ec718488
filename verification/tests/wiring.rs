use rchtmltopdf::apply::apply;
use rchtmltopdf::clock::Clock;
use rchtmltopdf::plan::Plan;
use rchtmltopdf::settings::Settings;
use rchtmltopdf::table::{self, OptionSpec, Scope, Support};
use rchtmltopdf::tokenizer::tokenize;

/// Options no plan can see, because they are not about what the browser is asked
/// to do, each with what holds it instead.
const HONOURED_OUTSIDE_THE_PLAN: &[(&str, &str)] = &[
    ("quiet", "run.rs: quiet_is_shorthand_for_log_level_none"),
    (
        "log-level",
        "run.rs: log_level_decides_whether_warnings_are_shown",
    ),
    (
        "load-media-error-handling",
        "convert.rs: a_failed_subresource_is_judged_by_the_media_handler",
    ),
    (
        "load-error-handling",
        "convert.rs: ignore_prints_the_document_that_did_load",
    ),
];

/// Documents a plan is built against. Some options only do anything for one
/// kind of them.
const DOCUMENTS: &[&str] = &["file:///doc.html", "https://example.com/doc"];

const FROZEN: Clock = Clock {
    year: 2026,
    month: 9,
    day: 12,
    hour: 12,
    minute: 0,
    second: 0,
    utc_offset_seconds: 0,
};

/// A plausible value for each placeholder, none of them the default.
fn placeholder(spec: &OptionSpec, name: &str) -> &'static str {
    match spec.long {
        "viewport-size" => return "1280x1024",
        "page-size" => return "Letter",
        "log-level" => return "error",
        _ => {}
    }
    match name {
        "unitreal" | "width" => "7mm",
        "orientation" => "Landscape",
        "handler" => "abort",
        "msec" | "int" | "integer" | "number" | "offset" | "seconds" | "dpi" | "size" | "level" => {
            "10"
        }
        "float" | "real" => "1.5",
        "encoding" => "UTF-8",
        "url" | "file" => "https://example.com/a",
        "path" => "/tmp",
        "js" => "void 0",
        "proxy" => "http://127.0.0.1:8080",
        _ => "x",
    }
}

fn written(spec: &OptionSpec) -> Vec<String> {
    let mut words = vec![format!("--{}", spec.long)];
    words.extend(
        spec.value_names()
            .iter()
            .map(|name| placeholder(spec, name).to_string()),
    );
    words
}

/// A command line with each option where the grammar allows it.
fn line_shaped(options: &[OptionSpec], toc_object: bool) -> Vec<String> {
    let (mut globals, mut object) = (Vec::new(), Vec::new());
    for spec in options {
        let words = written(spec);
        match spec.scope {
            Scope::Global => globals.extend(words),
            Scope::Object | Scope::Toc => object.extend(words),
        }
    }
    let mut args = globals;
    args.push(if toc_object { "toc" } else { "in.html" }.to_string());
    args.extend(object);
    args.push("out.pdf".to_string());
    args
}

fn section_of(spec: &OptionSpec) -> Vec<OptionSpec> {
    table::sections()
        .into_iter()
        .find(|section| section.options.iter().any(|option| option.long == spec.long))
        .map(|section| section.options)
        .expect("every option is in a section")
}

fn settings_shaped(options: &[OptionSpec], toc_object: bool) -> Settings {
    let args = line_shaped(options, toc_object);
    let written = args.join(" ");
    let parsed = tokenize(args)
        .unwrap_or_else(|error| panic!("`{written}` did not parse: {}", error.message()));
    apply(&parsed).unwrap_or_else(|error| panic!("`{written}` did not apply: {}", error.message()))
}

/// The conversion these settings describe, against one of the fixed documents.
fn plan_for(settings: &Settings, document: &str) -> Plan {
    let object = settings
        .objects
        .first()
        .expect("every line built here has an object");
    Plan::new(
        &settings.global,
        object,
        FROZEN,
        document,
        object.web.allowed_paths.clone(),
        None,
    )
}

/// Whether writing `spec` on top of `written` changes any conversion.
fn moves_anything(written: &[OptionSpec], spec: OptionSpec) -> bool {
    let mut with = written.to_vec();
    with.push(spec);
    let toc = with.iter().any(|option| option.scope == Scope::Toc);
    let before = settings_shaped(written, toc);
    let after = settings_shaped(&with, toc);
    if before == after {
        return false;
    }
    DOCUMENTS
        .iter()
        .any(|document| plan_for(&before, document) != plan_for(&after, document))
}

/// Every starting point of one other option.
fn single_baselines(spec: OptionSpec) -> Vec<Vec<OptionSpec>> {
    let mut baselines = vec![Vec::new()];
    for other in table::all() {
        if other.long == spec.long || other.support == Support::Meta {
            continue;
        }
        baselines.push(vec![other]);
    }
    baselines
}

fn changes_the_conversion(spec: OptionSpec) -> bool {
    if single_baselines(spec)
        .iter()
        .any(|written| moves_anything(written, spec))
    {
        return true;
    }
    let section = section_of(&spec);
    section.iter().any(|first| {
        section.iter().any(|second| {
            first.long != second.long
                && first.long != spec.long
                && second.long != spec.long
                && moves_anything(&[*first, *second], spec)
        })
    })
}

#[test]
fn every_option_marked_implemented_changes_the_conversion() {
    let idle: Vec<&str> = table::all()
        .into_iter()
        .filter(|spec| spec.support == Support::Implemented)
        .filter(|spec| {
            !HONOURED_OUTSIDE_THE_PLAN
                .iter()
                .any(|(name, _)| *name == spec.long)
        })
        .filter(|spec| !changes_the_conversion(*spec))
        .map(|spec| spec.long)
        .collect();
    assert!(
        idle.is_empty(),
        "the table calls these implemented and they change nothing that is printed: {idle:#?}"
    );
}

#[test]
fn nothing_the_table_calls_unbuilt_changes_the_conversion() {
    for spec in table::all()
        .into_iter()
        .filter(|spec| matches!(spec.support, Support::Planned(_) | Support::NoEquivalent(_)))
    {
        for written in single_baselines(spec) {
            assert!(
                !moves_anything(&written, spec),
                "--{} is warned about as ignored, and it changed the conversion",
                spec.long
            );
        }
    }
}

#[test]
fn an_option_that_is_not_built_may_still_be_understood() {
    let copies = table::lookup_long("copies").expect("in the table");
    assert!(matches!(copies.support, Support::Planned(_)));
    assert_eq!(copies.arity(), 1);
    assert!(!changes_the_conversion(copies));
}

#[test]
fn every_exemption_names_a_real_option_and_a_test() {
    for (name, held_by) in HONOURED_OUTSIDE_THE_PLAN {
        let spec = table::lookup_long(name).unwrap_or_else(|| panic!("--{name} is not an option"));
        assert_eq!(
            spec.support,
            Support::Implemented,
            "--{name} is exempt from a check it is not subject to"
        );
        assert!(held_by.contains(".rs: "), "{name} names no test");
    }
}
