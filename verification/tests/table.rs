use rchtmltopdf::table::{all, lookup_long, lookup_short, sections, Scope, Support};
use std::collections::HashMap;

#[test]
fn long_names_are_unique() {
    let mut seen: HashMap<&str, usize> = HashMap::new();
    for spec in all() {
        *seen.entry(spec.long).or_insert(0) += 1;
    }
    let duplicates: Vec<&str> = seen
        .iter()
        .filter(|(_, count)| **count > 1)
        .map(|(name, _)| *name)
        .collect();
    assert!(duplicates.is_empty(), "duplicate long names: {duplicates:?}");
}

#[test]
fn short_flags_are_unique() {
    let mut seen: HashMap<char, Vec<&str>> = HashMap::new();
    for spec in all() {
        if let Some(letter) = spec.short {
            seen.entry(letter).or_default().push(spec.long);
        }
    }
    let clashes: Vec<_> = seen.iter().filter(|(_, names)| names.len() > 1).collect();
    assert!(clashes.is_empty(), "short flag used twice: {clashes:?}");
}

#[test]
fn long_names_have_no_dashes_prefix_and_no_spaces() {
    for spec in all() {
        assert!(!spec.long.starts_with('-'), "{} has a dash prefix", spec.long);
        assert!(!spec.long.contains(' '), "{} contains a space", spec.long);
        assert!(!spec.long.is_empty());
    }
}

#[test]
fn arity_never_exceeds_two() {
    for spec in all() {
        assert!(
            spec.arity() <= 2,
            "{} takes {} values",
            spec.long,
            spec.arity()
        );
        assert_eq!(spec.value_names().len(), spec.arity());
    }
}

#[test]
fn only_options_taking_values_can_repeat() {
    for spec in all() {
        if spec.repeatable {
            assert!(spec.arity() > 0, "{} repeats but takes no value", spec.long);
        }
    }
}

#[test]
fn scope_matches_section() {
    for section in sections() {
        for spec in &section.options {
            let expected = match section.title {
                "General Options" | "Outline Options" | "rchtmltopdf Options" => Scope::Global,
                "Page Options" | "Headers And Footer Options" => Scope::Object,
                "TOC Options" => Scope::Toc,
                other => panic!("unknown section {other}"),
            };
            assert_eq!(spec.scope, expected, "{} has the wrong scope", spec.long);
        }
    }
}

#[test]
fn lookup_finds_known_options() {
    assert_eq!(lookup_long("page-size").unwrap().arity(), 1);
    assert_eq!(lookup_long("cookie").unwrap().arity(), 2);
    assert_eq!(lookup_long("quiet").unwrap().arity(), 0);
    assert_eq!(lookup_short('s').unwrap().long, "page-size");
    assert_eq!(lookup_short('T').unwrap().long, "margin-top");
    assert!(lookup_long("no-such-option").is_none());
    assert!(lookup_short('z').is_none());
}

#[test]
fn every_option_the_brief_promises_for_v1_is_still_keepable() {
    let promised = [
        "page-size",
        "page-width",
        "page-height",
        "margin-top",
        "margin-right",
        "margin-bottom",
        "margin-left",
        "orientation",
        "zoom",
        "javascript-delay",
        "cookie",
        "custom-header",
        "username",
        "password",
        "user-style-sheet",
        "print-media-type",
        "enable-local-file-access",
        "footer-center",
        "footer-left",
        "footer-right",
        "header-center",
        "header-left",
        "header-right",
    ];
    for name in promised {
        let spec = lookup_long(name).unwrap_or_else(|| panic!("{name} missing from the table"));
        assert!(
            matches!(spec.support, Support::Implemented | Support::Planned(_)),
            "{name} is promised for V1 and the table calls it {:?}, \
             which says the promise cannot be kept",
            spec.support
        );
    }
}

#[test]
fn unimplemented_options_explain_themselves() {
    for spec in all() {
        match spec.support {
            Support::Planned(reason) | Support::NoEquivalent(reason) => {
                assert!(!reason.is_empty(), "{} has an empty reason", spec.long);
                let warning = spec.support.warning("--x").unwrap();
                assert!(warning.contains(reason));
            }
            _ => assert!(spec.support.warning("--x").is_none()),
        }
    }
}

#[test]
fn an_option_is_shown_with_its_dashes() {
    assert_eq!(lookup_long("cookie").unwrap().display(), "--cookie");
    assert_eq!(
        lookup_long("cookie").unwrap().value_names(),
        ["name", "value"]
    );
    assert!(lookup_long("help").unwrap().support.is_meta());
    assert!(!lookup_long("cookie").unwrap().support.is_meta());
}

#[test]
fn every_option_is_found_by_its_name_and_by_its_letter() {
    let options = all();
    for spec in &options {
        assert_eq!(lookup_long(spec.long), Some(*spec));
        if let Some(letter) = spec.short {
            assert_eq!(lookup_short(letter), Some(*spec));
        }
    }
    assert_eq!(options.len(), 128);
    assert_eq!(lookup_long("Page-Size"), None);
    assert_eq!(lookup_long("--page-size"), None);
    assert_eq!(lookup_short('z'), None);
    assert_eq!(lookup_short('h').unwrap().long, "help");
    assert_eq!(lookup_short('H').unwrap().long, "extended-help");
}
