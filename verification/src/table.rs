//! Every option of the command line.
//!
//! One row per option: how it is spelled, where it may be written, what it
//! takes, and how far it is honoured. The parser, the help and the translation
//! into settings all read this table.

use crate::text::same;
use vstd::prelude::*;

verus! {

/// Which part of the command line an option belongs to.
#[derive(Clone, Copy, Debug, PartialEq, Eq)]
pub enum Scope {
    /// The whole run.
    Global,
    /// The object it follows.
    Object,
    /// A table of contents.
    Toc,
}

/// How far an option is honoured.
#[derive(Clone, Copy, Debug, PartialEq, Eq)]
pub enum Support {
    /// It changes what a conversion does.
    Implemented,
    /// Recognised, and ignored for now, for this reason.
    Planned(&'static str),
    /// Recognised, and ignored for good, for this reason.
    NoEquivalent(&'static str),
    /// Answered before any conversion.
    Meta,
    /// An option of this program alone.
    Extension,
}

/// The placeholders of the values that an option takes.
#[derive(Clone, Copy, Debug, PartialEq, Eq)]
pub enum Values {
    /// It is a flag.
    Nothing,
    /// It takes one value.
    One(&'static str),
    /// It takes two values.
    Two(&'static str, &'static str),
}

/// The warning that a recognised and ignored option deserves.
pub open spec fn warning_of(support: Support, as_written: Seq<char>) -> Option<Seq<char>> {
    match support {
        Support::Planned(reason) => Some(
            as_written + " is accepted but not implemented yet ("@ + reason@
                + "); it is being ignored"@,
        ),
        Support::NoEquivalent(reason) => Some(
            as_written + " is accepted for compatibility but has no Chromium equivalent ("@
                + reason@ + "); it is being ignored"@,
        ),
        Support::Implemented | Support::Meta | Support::Extension => None,
    }
}

impl Support {
    /// What to say about an option that will do nothing, as it was written.
    pub fn warning(self, as_written: &str) -> (warning: Option<String>)
        ensures
            crate::text::maybe(warning) == warning_of(self, as_written@),
    {
        match self {
            Support::Implemented | Support::Meta | Support::Extension => None,
            Support::Planned(reason) => {
                let mut line = as_written.to_owned();
                line.push_str(" is accepted but not implemented yet (");
                line.push_str(reason);
                line.push_str("); it is being ignored");
                Some(line)
            },
            Support::NoEquivalent(reason) => {
                let mut line = as_written.to_owned();
                line.push_str(" is accepted for compatibility but has no Chromium equivalent (");
                line.push_str(reason);
                line.push_str("); it is being ignored");
                Some(line)
            },
        }
    }

    /// Whether an option is answered before any conversion.
    pub fn is_meta(self) -> (yes: bool)
        ensures
            yes == (self is Meta),
    {
        matches!(self, Support::Meta)
    }
}

/// One option.
#[derive(Clone, Copy, Debug, PartialEq, Eq)]
pub struct OptionSpec {
    /// The long name, without its dashes.
    pub long: &'static str,
    /// The letter of its short form, if it has one.
    pub short: Option<char>,
    pub scope: Scope,
    pub support: Support,
    pub value_names: Values,
    /// Whether writing it again adds to what was written before.
    pub repeatable: bool,
    pub help: &'static str,
}

impl OptionSpec {
    /// The row of an option that takes values.
    pub open spec fn row(
        long: &'static str,
        short: Option<char>,
        scope: Scope,
        support: Support,
        value_names: Values,
        help: &'static str,
    ) -> OptionSpec {
        OptionSpec { long, short, scope, support, value_names, repeatable: false, help }
    }

    /// The row of an option that takes none.
    pub open spec fn flag_row(
        long: &'static str,
        short: Option<char>,
        scope: Scope,
        support: Support,
        help: &'static str,
    ) -> OptionSpec {
        OptionSpec::row(long, short, scope, support, Values::Nothing, help)
    }

    /// The same row for an option whose values accumulate.
    pub open spec fn repeating(self) -> OptionSpec {
        OptionSpec { repeatable: true, ..self }
    }

    /// How many values an option takes.
    pub open spec fn arity_of(&self) -> usize {
        match self.value_names {
            Values::Nothing => 0,
            Values::One(_) => 1,
            Values::Two(_, _) => 2,
        }
    }

    #[verifier::when_used_as_spec(row)]
    pub fn new(
        long: &'static str,
        short: Option<char>,
        scope: Scope,
        support: Support,
        value_names: Values,
        help: &'static str,
    ) -> (spec: OptionSpec)
        ensures
            spec == OptionSpec::row(long, short, scope, support, value_names, help),
    {
        OptionSpec { long, short, scope, support, value_names, repeatable: false, help }
    }

    #[verifier::when_used_as_spec(flag_row)]
    pub fn flag(
        long: &'static str,
        short: Option<char>,
        scope: Scope,
        support: Support,
        help: &'static str,
    ) -> (spec: OptionSpec)
        ensures
            spec == OptionSpec::flag_row(long, short, scope, support, help),
    {
        OptionSpec::new(long, short, scope, support, Values::Nothing, help)
    }

    #[verifier::when_used_as_spec(repeating)]
    pub fn repeats(self) -> (spec: OptionSpec)
        ensures
            spec == self.repeating(),
    {
        OptionSpec { repeatable: true, ..self }
    }

    /// How many values the option takes.
    #[verifier::when_used_as_spec(arity_of)]
    pub fn arity(&self) -> (count: usize)
        ensures
            count == self.arity_of(),
    {
        match self.value_names {
            Values::Nothing => 0,
            Values::One(_) => 1,
            Values::Two(_, _) => 2,
        }
    }

    /// The placeholders of its values, in order.
    pub open spec fn placeholders(&self) -> Seq<&'static str> {
        match self.value_names {
            Values::Nothing => Seq::empty(),
            Values::One(first) => seq![first],
            Values::Two(first, second) => seq![first, second],
        }
    }

    /// The placeholders of its values, in order.
    pub fn value_names(&self) -> (names: Vec<&'static str>)
        ensures
            names@ == self.placeholders(),
    {
        let mut names: Vec<&'static str> = Vec::new();
        match self.value_names {
            Values::Nothing => {},
            Values::One(first) => {
                names.push(first);
            },
            Values::Two(first, second) => {
                names.push(first);
                names.push(second);
            },
        }
        names
    }

    /// The option as it is written out in full.
    pub fn display(&self) -> (text: String)
        ensures
            text@ == "--"@ + self.long@,
    {
        let mut text = "--".to_owned();
        text.push_str(self.long);
        text
    }
}

pub const SHRINK: &'static str = "rendering is fixed at 96 CSS px per inch; see the smart shrinking section of the migration guide";

pub const FORMS: &'static str = "Chromium's print path draws form fields as they look and makes no interactive fields";

pub const UNSCHEDULED: &'static str = "not built, and not scheduled";

/// The rows under "General Options".
#[verifier::opaque]
pub open spec fn general_table() -> Seq<OptionSpec> {
    seq![
        OptionSpec::flag("collate", None, Scope::Global, Support::Planned(UNSCHEDULED), "Collate when printing multiple copies (default)"),
        OptionSpec::flag("no-collate", None, Scope::Global, Support::Planned(UNSCHEDULED), "Do not collate when printing multiple copies"),
        OptionSpec::new("cookie-jar", None, Scope::Global, Support::Planned(UNSCHEDULED), Values::One("path"), "Read and write cookies from and to the supplied cookie jar file"),
        OptionSpec::new("copies", None, Scope::Global, Support::Planned(UNSCHEDULED), Values::One("number"), "Number of copies to print into the pdf file (default 1)"),
        OptionSpec::new("dpi", Some('d'), Scope::Global, Support::NoEquivalent(SHRINK), Values::One("dpi"), "Change the dpi explicitly (this has no effect on X11 based systems)"),
        OptionSpec::flag("extended-help", Some('H'), Scope::Global, Support::Meta, "Display more extensive help, detailing less common command switches"),
        OptionSpec::flag("grayscale", Some('g'), Scope::Global, Support::NoEquivalent("Page.printToPDF has no grayscale mode"), "PDF will be generated in grayscale"),
        OptionSpec::flag("help", Some('h'), Scope::Global, Support::Meta, "Display help"),
        OptionSpec::flag("htmldoc", None, Scope::Global, Support::Meta, "Output program html help"),
        OptionSpec::new("image-dpi", None, Scope::Global, Support::NoEquivalent(SHRINK), Values::One("integer"), "When embedding images scale them down to this dpi (default 600)"),
        OptionSpec::new("image-quality", None, Scope::Global, Support::NoEquivalent("Chromium controls image encoding itself"), Values::One("integer"), "When jpeg compressing images use this quality (default 94)"),
        OptionSpec::flag("license", None, Scope::Global, Support::Meta, "Output license information and exit"),
        OptionSpec::new("log-level", None, Scope::Global, Support::Implemented, Values::One("level"), "Set log level to: none, error, warn or info (default info)"),
        OptionSpec::flag("lowquality", Some('l'), Scope::Global, Support::NoEquivalent("Chromium has no reduced-quality print mode"), "Generates lower quality pdf/ps. Useful to shrink the result document space"),
        OptionSpec::flag("manpage", None, Scope::Global, Support::Meta, "Output program man page"),
        OptionSpec::new("margin-bottom", Some('B'), Scope::Global, Support::Implemented, Values::One("unitreal"), "Set the page bottom margin"),
        OptionSpec::new("margin-left", Some('L'), Scope::Global, Support::Implemented, Values::One("unitreal"), "Set the page left margin (default 10mm)"),
        OptionSpec::new("margin-right", Some('R'), Scope::Global, Support::Implemented, Values::One("unitreal"), "Set the page right margin (default 10mm)"),
        OptionSpec::new("margin-top", Some('T'), Scope::Global, Support::Implemented, Values::One("unitreal"), "Set the page top margin"),
        OptionSpec::new("orientation", Some('O'), Scope::Global, Support::Implemented, Values::One("orientation"), "Set orientation to Landscape or Portrait (default Portrait)"),
        OptionSpec::new("page-height", None, Scope::Global, Support::Implemented, Values::One("unitreal"), "Page height"),
        OptionSpec::new("page-size", Some('s'), Scope::Global, Support::Implemented, Values::One("Size"), "Set paper size to: A4, Letter, etc. (default A4)"),
        OptionSpec::new("page-width", None, Scope::Global, Support::Implemented, Values::One("unitreal"), "Page width"),
        OptionSpec::flag("no-pdf-compression", None, Scope::Global, Support::Planned(UNSCHEDULED), "Do not use lossless compression on pdf objects"),
        OptionSpec::flag("quiet", Some('q'), Scope::Global, Support::Implemented, "Be less verbose, maintained for backwards compatibility; Same as using --log-level none"),
        OptionSpec::flag("read-args-from-stdin", None, Scope::Global, Support::Planned(UNSCHEDULED), "Read command line arguments from stdin"),
        OptionSpec::flag("readme", None, Scope::Global, Support::Meta, "Output program readme"),
        OptionSpec::new("title", None, Scope::Global, Support::Implemented, Values::One("text"), "The title of the generated pdf file (The title of the first document is used if not specified)"),
        OptionSpec::flag("use-xserver", None, Scope::Global, Support::NoEquivalent("headless Chromium needs no X server"), "Use the X server (some plugins and other stuff might not work without X11)"),
        OptionSpec::flag("version", Some('V'), Scope::Global, Support::Meta, "Output version information and exit"),
    ]
}

/// The options under "General Options".
pub fn general_options() -> (options: Vec<OptionSpec>)
    ensures
        options@ == general_table(),
{
    let options = vec![
        OptionSpec::flag("collate", None, Scope::Global, Support::Planned(UNSCHEDULED), "Collate when printing multiple copies (default)"),
        OptionSpec::flag("no-collate", None, Scope::Global, Support::Planned(UNSCHEDULED), "Do not collate when printing multiple copies"),
        OptionSpec::new("cookie-jar", None, Scope::Global, Support::Planned(UNSCHEDULED), Values::One("path"), "Read and write cookies from and to the supplied cookie jar file"),
        OptionSpec::new("copies", None, Scope::Global, Support::Planned(UNSCHEDULED), Values::One("number"), "Number of copies to print into the pdf file (default 1)"),
        OptionSpec::new("dpi", Some('d'), Scope::Global, Support::NoEquivalent(SHRINK), Values::One("dpi"), "Change the dpi explicitly (this has no effect on X11 based systems)"),
        OptionSpec::flag("extended-help", Some('H'), Scope::Global, Support::Meta, "Display more extensive help, detailing less common command switches"),
        OptionSpec::flag("grayscale", Some('g'), Scope::Global, Support::NoEquivalent("Page.printToPDF has no grayscale mode"), "PDF will be generated in grayscale"),
        OptionSpec::flag("help", Some('h'), Scope::Global, Support::Meta, "Display help"),
        OptionSpec::flag("htmldoc", None, Scope::Global, Support::Meta, "Output program html help"),
        OptionSpec::new("image-dpi", None, Scope::Global, Support::NoEquivalent(SHRINK), Values::One("integer"), "When embedding images scale them down to this dpi (default 600)"),
        OptionSpec::new("image-quality", None, Scope::Global, Support::NoEquivalent("Chromium controls image encoding itself"), Values::One("integer"), "When jpeg compressing images use this quality (default 94)"),
        OptionSpec::flag("license", None, Scope::Global, Support::Meta, "Output license information and exit"),
        OptionSpec::new("log-level", None, Scope::Global, Support::Implemented, Values::One("level"), "Set log level to: none, error, warn or info (default info)"),
        OptionSpec::flag("lowquality", Some('l'), Scope::Global, Support::NoEquivalent("Chromium has no reduced-quality print mode"), "Generates lower quality pdf/ps. Useful to shrink the result document space"),
        OptionSpec::flag("manpage", None, Scope::Global, Support::Meta, "Output program man page"),
        OptionSpec::new("margin-bottom", Some('B'), Scope::Global, Support::Implemented, Values::One("unitreal"), "Set the page bottom margin"),
        OptionSpec::new("margin-left", Some('L'), Scope::Global, Support::Implemented, Values::One("unitreal"), "Set the page left margin (default 10mm)"),
        OptionSpec::new("margin-right", Some('R'), Scope::Global, Support::Implemented, Values::One("unitreal"), "Set the page right margin (default 10mm)"),
        OptionSpec::new("margin-top", Some('T'), Scope::Global, Support::Implemented, Values::One("unitreal"), "Set the page top margin"),
        OptionSpec::new("orientation", Some('O'), Scope::Global, Support::Implemented, Values::One("orientation"), "Set orientation to Landscape or Portrait (default Portrait)"),
        OptionSpec::new("page-height", None, Scope::Global, Support::Implemented, Values::One("unitreal"), "Page height"),
        OptionSpec::new("page-size", Some('s'), Scope::Global, Support::Implemented, Values::One("Size"), "Set paper size to: A4, Letter, etc. (default A4)"),
        OptionSpec::new("page-width", None, Scope::Global, Support::Implemented, Values::One("unitreal"), "Page width"),
        OptionSpec::flag("no-pdf-compression", None, Scope::Global, Support::Planned(UNSCHEDULED), "Do not use lossless compression on pdf objects"),
        OptionSpec::flag("quiet", Some('q'), Scope::Global, Support::Implemented, "Be less verbose, maintained for backwards compatibility; Same as using --log-level none"),
        OptionSpec::flag("read-args-from-stdin", None, Scope::Global, Support::Planned(UNSCHEDULED), "Read command line arguments from stdin"),
        OptionSpec::flag("readme", None, Scope::Global, Support::Meta, "Output program readme"),
        OptionSpec::new("title", None, Scope::Global, Support::Implemented, Values::One("text"), "The title of the generated pdf file (The title of the first document is used if not specified)"),
        OptionSpec::flag("use-xserver", None, Scope::Global, Support::NoEquivalent("headless Chromium needs no X server"), "Use the X server (some plugins and other stuff might not work without X11)"),
        OptionSpec::flag("version", Some('V'), Scope::Global, Support::Meta, "Output version information and exit"),
    ];
    proof {
        reveal(general_table);
    }
    assert(options@ =~= general_table());
    options
}

/// The rows under "Outline Options".
#[verifier::opaque]
pub open spec fn outline_table() -> Seq<OptionSpec> {
    seq![
        OptionSpec::flag("dump-default-toc-xsl", None, Scope::Global, Support::NoEquivalent("no stylesheet is used, so there is none to dump; the table of contents it described is generated directly (D41)"), "Dump the default TOC xsl style sheet to stdout"),
        OptionSpec::new("dump-outline", None, Scope::Global, Support::Implemented, Values::One("file"), "Dump the outline to a file"),
        OptionSpec::flag("outline", None, Scope::Global, Support::Implemented, "Put an outline into the pdf (default)"),
        OptionSpec::flag("no-outline", None, Scope::Global, Support::Implemented, "Do not put an outline into the pdf"),
        OptionSpec::new("outline-depth", None, Scope::Global, Support::Implemented, Values::One("level"), "Set the depth of the outline (default 4)"),
    ]
}

/// The options under "Outline Options".
pub fn outline_options() -> (options: Vec<OptionSpec>)
    ensures
        options@ == outline_table(),
{
    let options = vec![
        OptionSpec::flag("dump-default-toc-xsl", None, Scope::Global, Support::NoEquivalent("no stylesheet is used, so there is none to dump; the table of contents it described is generated directly (D41)"), "Dump the default TOC xsl style sheet to stdout"),
        OptionSpec::new("dump-outline", None, Scope::Global, Support::Implemented, Values::One("file"), "Dump the outline to a file"),
        OptionSpec::flag("outline", None, Scope::Global, Support::Implemented, "Put an outline into the pdf (default)"),
        OptionSpec::flag("no-outline", None, Scope::Global, Support::Implemented, "Do not put an outline into the pdf"),
        OptionSpec::new("outline-depth", None, Scope::Global, Support::Implemented, Values::One("level"), "Set the depth of the outline (default 4)"),
    ];
    proof {
        reveal(outline_table);
    }
    assert(options@ =~= outline_table());
    options
}

/// The rows under "Page Options".
#[verifier::opaque]
pub open spec fn page_table() -> Seq<OptionSpec> {
    seq![
        OptionSpec::new("allow", None, Scope::Object, Support::Implemented, Values::One("path"), "Allow the file or files from the specified folder to be loaded (repeatable)").repeats(),
        OptionSpec::flag("background", None, Scope::Object, Support::Implemented, "Do print background (default)"),
        OptionSpec::flag("no-background", None, Scope::Object, Support::Implemented, "Do not print background"),
        OptionSpec::new("bypass-proxy-for", None, Scope::Object, Support::Implemented, Values::One("value"), "Bypass proxy for host (repeatable)").repeats(),
        OptionSpec::new("cache-dir", None, Scope::Object, Support::Implemented, Values::One("path"), "Web cache directory"),
        OptionSpec::new("checkbox-checked-svg", None, Scope::Object, Support::NoEquivalent("Chromium renders form controls itself"), Values::One("path"), "Use this SVG file when rendering checked checkboxes"),
        OptionSpec::new("checkbox-svg", None, Scope::Object, Support::NoEquivalent("Chromium renders form controls itself"), Values::One("path"), "Use this SVG file when rendering unchecked checkboxes"),
        OptionSpec::new("cookie", None, Scope::Object, Support::Implemented, Values::Two("name", "value"), "Set an additional cookie (repeatable), value should be url encoded").repeats(),
        OptionSpec::new("custom-header", None, Scope::Object, Support::Implemented, Values::Two("name", "value"), "Set an additional HTTP header (repeatable)").repeats(),
        OptionSpec::flag("custom-header-propagation", None, Scope::Object, Support::Implemented, "Add HTTP headers specified by --custom-header for each resource request"),
        OptionSpec::flag("no-custom-header-propagation", None, Scope::Object, Support::Implemented, "Do not add HTTP headers specified by --custom-header for each resource request"),
        OptionSpec::flag("debug-javascript", None, Scope::Object, Support::Planned(UNSCHEDULED), "Show javascript debugging output"),
        OptionSpec::flag("no-debug-javascript", None, Scope::Object, Support::Planned(UNSCHEDULED), "Do not show javascript debugging output (default)"),
        OptionSpec::flag("default-header", None, Scope::Object, Support::Implemented, "Add a default header, with the name of the page to the left, and the page number to the right"),
        OptionSpec::new("encoding", None, Scope::Object, Support::Implemented, Values::One("encoding"), "Set the default text encoding, for input"),
        OptionSpec::flag("disable-external-links", None, Scope::Object, Support::Implemented, "Do not make links to remote web pages"),
        OptionSpec::flag("enable-external-links", None, Scope::Object, Support::Implemented, "Make links to remote web pages (default)"),
        OptionSpec::flag("disable-forms", None, Scope::Object, Support::NoEquivalent(FORMS), "Do not turn HTML form fields into pdf form fields (default)"),
        OptionSpec::flag("enable-forms", None, Scope::Object, Support::NoEquivalent(FORMS), "Turn HTML form fields into pdf form fields"),
        OptionSpec::flag("images", None, Scope::Object, Support::Implemented, "Do load or print images (default)"),
        OptionSpec::flag("no-images", None, Scope::Object, Support::Implemented, "Do not load or print images"),
        OptionSpec::flag("disable-internal-links", None, Scope::Object, Support::Implemented, "Do not make local links"),
        OptionSpec::flag("enable-internal-links", None, Scope::Object, Support::Implemented, "Make local links (default)"),
        OptionSpec::flag("disable-javascript", Some('n'), Scope::Object, Support::Implemented, "Do not allow web pages to run javascript"),
        OptionSpec::flag("enable-javascript", None, Scope::Object, Support::Implemented, "Do allow web pages to run javascript (default)"),
        OptionSpec::new("javascript-delay", None, Scope::Object, Support::Implemented, Values::One("msec"), "Wait some milliseconds for javascript finish (default 200)"),
        OptionSpec::flag("keep-relative-links", None, Scope::Object, Support::Implemented, "Keep relative external links as relative external links"),
        OptionSpec::new("load-error-handling", None, Scope::Object, Support::Implemented, Values::One("handler"), "Specify how to handle pages that fail to load: abort, ignore or skip (default abort)"),
        OptionSpec::new("load-media-error-handling", None, Scope::Object, Support::Implemented, Values::One("handler"), "Specify how to handle media files that fail to load: abort, ignore or skip (default ignore)"),
        OptionSpec::flag("disable-local-file-access", None, Scope::Object, Support::Implemented, "Do not allow conversion of a local file to read in other local files, unless explicitly allowed with --allow (default)"),
        OptionSpec::flag("enable-local-file-access", None, Scope::Object, Support::Implemented, "Allow conversion of a local file to read in other local files"),
        OptionSpec::new("minimum-font-size", None, Scope::Object, Support::Implemented, Values::One("int"), "Minimum font size"),
        OptionSpec::flag("exclude-from-outline", None, Scope::Object, Support::Implemented, "Do not include the page in the table of contents and outlines"),
        OptionSpec::flag("include-in-outline", None, Scope::Object, Support::Implemented, "Include the page in the table of contents and outlines (default)"),
        OptionSpec::new("page-offset", None, Scope::Object, Support::Implemented, Values::One("offset"), "Set the starting page number (default 0)"),
        OptionSpec::new("password", None, Scope::Object, Support::Implemented, Values::One("password"), "HTTP Authentication password"),
        OptionSpec::flag("disable-plugins", None, Scope::Object, Support::NoEquivalent("Chromium has no NPAPI plugin support"), "Disable installed plugins (default)"),
        OptionSpec::flag("enable-plugins", None, Scope::Object, Support::NoEquivalent("Chromium has no NPAPI plugin support"), "Enable installed plugins (plugins will likely not work)"),
        OptionSpec::new("post", None, Scope::Object, Support::Planned(UNSCHEDULED), Values::Two("name", "value"), "Add an additional post field (repeatable)").repeats(),
        OptionSpec::new("post-file", None, Scope::Object, Support::Planned(UNSCHEDULED), Values::Two("name", "path"), "Post an additional file (repeatable)").repeats(),
        OptionSpec::flag("print-media-type", None, Scope::Object, Support::Implemented, "Use print media-type instead of screen"),
        OptionSpec::flag("no-print-media-type", None, Scope::Object, Support::Implemented, "Do not use print media-type instead of screen (default)"),
        OptionSpec::new("proxy", Some('p'), Scope::Object, Support::Implemented, Values::One("proxy"), "Use a proxy"),
        OptionSpec::flag("proxy-hostname-lookup", None, Scope::Object, Support::Planned(UNSCHEDULED), "Use the proxy for resolving hostnames"),
        OptionSpec::new("radiobutton-checked-svg", None, Scope::Object, Support::NoEquivalent("Chromium renders form controls itself"), Values::One("path"), "Use this SVG file when rendering checked radiobuttons"),
        OptionSpec::new("radiobutton-svg", None, Scope::Object, Support::NoEquivalent("Chromium renders form controls itself"), Values::One("path"), "Use this SVG file when rendering unchecked radiobuttons"),
        OptionSpec::flag("resolve-relative-links", None, Scope::Object, Support::Implemented, "Resolve relative external links into absolute links (default)"),
        OptionSpec::new("run-script", None, Scope::Object, Support::Implemented, Values::One("js"), "Run this additional javascript after the page is done loading (repeatable)").repeats(),
        OptionSpec::flag("disable-smart-shrinking", None, Scope::Object, Support::NoEquivalent(SHRINK), "Disable the intelligent shrinking strategy used by WebKit"),
        OptionSpec::flag("enable-smart-shrinking", None, Scope::Object, Support::NoEquivalent(SHRINK), "Enable the intelligent shrinking strategy used by WebKit (default)"),
        OptionSpec::new("ssl-crt-path", None, Scope::Object, Support::Planned(UNSCHEDULED), Values::One("path"), "Path to the ssl client cert public key in OpenSSL PEM format"),
        OptionSpec::new("ssl-key-password", None, Scope::Object, Support::Planned(UNSCHEDULED), Values::One("password"), "Password to ssl client cert private key"),
        OptionSpec::new("ssl-key-path", None, Scope::Object, Support::Planned(UNSCHEDULED), Values::One("path"), "Path to ssl client cert private key in OpenSSL PEM format"),
        OptionSpec::flag("stop-slow-scripts", None, Scope::Object, Support::Planned(UNSCHEDULED), "Stop slow running javascripts (default)"),
        OptionSpec::flag("no-stop-slow-scripts", None, Scope::Object, Support::Implemented, "Do not Stop slow running javascripts"),
        OptionSpec::flag("disable-toc-back-links", None, Scope::Object, Support::Implemented, "Do not link from section header to toc (default)"),
        OptionSpec::flag("enable-toc-back-links", None, Scope::Object, Support::Implemented, "Link from section header to toc"),
        OptionSpec::new("user-style-sheet", None, Scope::Object, Support::Implemented, Values::One("url"), "Specify a user style sheet, to load with every page"),
        OptionSpec::new("username", None, Scope::Object, Support::Implemented, Values::One("username"), "HTTP Authentication username"),
        OptionSpec::new("viewport-size", None, Scope::Object, Support::Implemented, Values::One("size"), "Set viewport size if you have custom scrollbars or css attribute overflow to emulate window size"),
        OptionSpec::new("window-status", None, Scope::Object, Support::Implemented, Values::One("windowStatus"), "Wait until window.status is equal to this string before rendering page"),
        OptionSpec::new("zoom", None, Scope::Object, Support::Implemented, Values::One("float"), "Use this zoom factor (default 1)"),
    ]
}

/// The options under "Page Options".
pub fn page_options() -> (options: Vec<OptionSpec>)
    ensures
        options@ == page_table(),
{
    let options = vec![
        OptionSpec::new("allow", None, Scope::Object, Support::Implemented, Values::One("path"), "Allow the file or files from the specified folder to be loaded (repeatable)").repeats(),
        OptionSpec::flag("background", None, Scope::Object, Support::Implemented, "Do print background (default)"),
        OptionSpec::flag("no-background", None, Scope::Object, Support::Implemented, "Do not print background"),
        OptionSpec::new("bypass-proxy-for", None, Scope::Object, Support::Implemented, Values::One("value"), "Bypass proxy for host (repeatable)").repeats(),
        OptionSpec::new("cache-dir", None, Scope::Object, Support::Implemented, Values::One("path"), "Web cache directory"),
        OptionSpec::new("checkbox-checked-svg", None, Scope::Object, Support::NoEquivalent("Chromium renders form controls itself"), Values::One("path"), "Use this SVG file when rendering checked checkboxes"),
        OptionSpec::new("checkbox-svg", None, Scope::Object, Support::NoEquivalent("Chromium renders form controls itself"), Values::One("path"), "Use this SVG file when rendering unchecked checkboxes"),
        OptionSpec::new("cookie", None, Scope::Object, Support::Implemented, Values::Two("name", "value"), "Set an additional cookie (repeatable), value should be url encoded").repeats(),
        OptionSpec::new("custom-header", None, Scope::Object, Support::Implemented, Values::Two("name", "value"), "Set an additional HTTP header (repeatable)").repeats(),
        OptionSpec::flag("custom-header-propagation", None, Scope::Object, Support::Implemented, "Add HTTP headers specified by --custom-header for each resource request"),
        OptionSpec::flag("no-custom-header-propagation", None, Scope::Object, Support::Implemented, "Do not add HTTP headers specified by --custom-header for each resource request"),
        OptionSpec::flag("debug-javascript", None, Scope::Object, Support::Planned(UNSCHEDULED), "Show javascript debugging output"),
        OptionSpec::flag("no-debug-javascript", None, Scope::Object, Support::Planned(UNSCHEDULED), "Do not show javascript debugging output (default)"),
        OptionSpec::flag("default-header", None, Scope::Object, Support::Implemented, "Add a default header, with the name of the page to the left, and the page number to the right"),
        OptionSpec::new("encoding", None, Scope::Object, Support::Implemented, Values::One("encoding"), "Set the default text encoding, for input"),
        OptionSpec::flag("disable-external-links", None, Scope::Object, Support::Implemented, "Do not make links to remote web pages"),
        OptionSpec::flag("enable-external-links", None, Scope::Object, Support::Implemented, "Make links to remote web pages (default)"),
        OptionSpec::flag("disable-forms", None, Scope::Object, Support::NoEquivalent(FORMS), "Do not turn HTML form fields into pdf form fields (default)"),
        OptionSpec::flag("enable-forms", None, Scope::Object, Support::NoEquivalent(FORMS), "Turn HTML form fields into pdf form fields"),
        OptionSpec::flag("images", None, Scope::Object, Support::Implemented, "Do load or print images (default)"),
        OptionSpec::flag("no-images", None, Scope::Object, Support::Implemented, "Do not load or print images"),
        OptionSpec::flag("disable-internal-links", None, Scope::Object, Support::Implemented, "Do not make local links"),
        OptionSpec::flag("enable-internal-links", None, Scope::Object, Support::Implemented, "Make local links (default)"),
        OptionSpec::flag("disable-javascript", Some('n'), Scope::Object, Support::Implemented, "Do not allow web pages to run javascript"),
        OptionSpec::flag("enable-javascript", None, Scope::Object, Support::Implemented, "Do allow web pages to run javascript (default)"),
        OptionSpec::new("javascript-delay", None, Scope::Object, Support::Implemented, Values::One("msec"), "Wait some milliseconds for javascript finish (default 200)"),
        OptionSpec::flag("keep-relative-links", None, Scope::Object, Support::Implemented, "Keep relative external links as relative external links"),
        OptionSpec::new("load-error-handling", None, Scope::Object, Support::Implemented, Values::One("handler"), "Specify how to handle pages that fail to load: abort, ignore or skip (default abort)"),
        OptionSpec::new("load-media-error-handling", None, Scope::Object, Support::Implemented, Values::One("handler"), "Specify how to handle media files that fail to load: abort, ignore or skip (default ignore)"),
        OptionSpec::flag("disable-local-file-access", None, Scope::Object, Support::Implemented, "Do not allow conversion of a local file to read in other local files, unless explicitly allowed with --allow (default)"),
        OptionSpec::flag("enable-local-file-access", None, Scope::Object, Support::Implemented, "Allow conversion of a local file to read in other local files"),
        OptionSpec::new("minimum-font-size", None, Scope::Object, Support::Implemented, Values::One("int"), "Minimum font size"),
        OptionSpec::flag("exclude-from-outline", None, Scope::Object, Support::Implemented, "Do not include the page in the table of contents and outlines"),
        OptionSpec::flag("include-in-outline", None, Scope::Object, Support::Implemented, "Include the page in the table of contents and outlines (default)"),
        OptionSpec::new("page-offset", None, Scope::Object, Support::Implemented, Values::One("offset"), "Set the starting page number (default 0)"),
        OptionSpec::new("password", None, Scope::Object, Support::Implemented, Values::One("password"), "HTTP Authentication password"),
        OptionSpec::flag("disable-plugins", None, Scope::Object, Support::NoEquivalent("Chromium has no NPAPI plugin support"), "Disable installed plugins (default)"),
        OptionSpec::flag("enable-plugins", None, Scope::Object, Support::NoEquivalent("Chromium has no NPAPI plugin support"), "Enable installed plugins (plugins will likely not work)"),
        OptionSpec::new("post", None, Scope::Object, Support::Planned(UNSCHEDULED), Values::Two("name", "value"), "Add an additional post field (repeatable)").repeats(),
        OptionSpec::new("post-file", None, Scope::Object, Support::Planned(UNSCHEDULED), Values::Two("name", "path"), "Post an additional file (repeatable)").repeats(),
        OptionSpec::flag("print-media-type", None, Scope::Object, Support::Implemented, "Use print media-type instead of screen"),
        OptionSpec::flag("no-print-media-type", None, Scope::Object, Support::Implemented, "Do not use print media-type instead of screen (default)"),
        OptionSpec::new("proxy", Some('p'), Scope::Object, Support::Implemented, Values::One("proxy"), "Use a proxy"),
        OptionSpec::flag("proxy-hostname-lookup", None, Scope::Object, Support::Planned(UNSCHEDULED), "Use the proxy for resolving hostnames"),
        OptionSpec::new("radiobutton-checked-svg", None, Scope::Object, Support::NoEquivalent("Chromium renders form controls itself"), Values::One("path"), "Use this SVG file when rendering checked radiobuttons"),
        OptionSpec::new("radiobutton-svg", None, Scope::Object, Support::NoEquivalent("Chromium renders form controls itself"), Values::One("path"), "Use this SVG file when rendering unchecked radiobuttons"),
        OptionSpec::flag("resolve-relative-links", None, Scope::Object, Support::Implemented, "Resolve relative external links into absolute links (default)"),
        OptionSpec::new("run-script", None, Scope::Object, Support::Implemented, Values::One("js"), "Run this additional javascript after the page is done loading (repeatable)").repeats(),
        OptionSpec::flag("disable-smart-shrinking", None, Scope::Object, Support::NoEquivalent(SHRINK), "Disable the intelligent shrinking strategy used by WebKit"),
        OptionSpec::flag("enable-smart-shrinking", None, Scope::Object, Support::NoEquivalent(SHRINK), "Enable the intelligent shrinking strategy used by WebKit (default)"),
        OptionSpec::new("ssl-crt-path", None, Scope::Object, Support::Planned(UNSCHEDULED), Values::One("path"), "Path to the ssl client cert public key in OpenSSL PEM format"),
        OptionSpec::new("ssl-key-password", None, Scope::Object, Support::Planned(UNSCHEDULED), Values::One("password"), "Password to ssl client cert private key"),
        OptionSpec::new("ssl-key-path", None, Scope::Object, Support::Planned(UNSCHEDULED), Values::One("path"), "Path to ssl client cert private key in OpenSSL PEM format"),
        OptionSpec::flag("stop-slow-scripts", None, Scope::Object, Support::Planned(UNSCHEDULED), "Stop slow running javascripts (default)"),
        OptionSpec::flag("no-stop-slow-scripts", None, Scope::Object, Support::Implemented, "Do not Stop slow running javascripts"),
        OptionSpec::flag("disable-toc-back-links", None, Scope::Object, Support::Implemented, "Do not link from section header to toc (default)"),
        OptionSpec::flag("enable-toc-back-links", None, Scope::Object, Support::Implemented, "Link from section header to toc"),
        OptionSpec::new("user-style-sheet", None, Scope::Object, Support::Implemented, Values::One("url"), "Specify a user style sheet, to load with every page"),
        OptionSpec::new("username", None, Scope::Object, Support::Implemented, Values::One("username"), "HTTP Authentication username"),
        OptionSpec::new("viewport-size", None, Scope::Object, Support::Implemented, Values::One("size"), "Set viewport size if you have custom scrollbars or css attribute overflow to emulate window size"),
        OptionSpec::new("window-status", None, Scope::Object, Support::Implemented, Values::One("windowStatus"), "Wait until window.status is equal to this string before rendering page"),
        OptionSpec::new("zoom", None, Scope::Object, Support::Implemented, Values::One("float"), "Use this zoom factor (default 1)"),
    ];
    proof {
        reveal(page_table);
    }
    assert(options@ =~= page_table());
    options
}

/// The rows under "Headers And Footer Options".
#[verifier::opaque]
pub open spec fn header_footer_table() -> Seq<OptionSpec> {
    seq![
        OptionSpec::new("footer-center", None, Scope::Object, Support::Implemented, Values::One("text"), "Centered footer text"),
        OptionSpec::new("footer-font-name", None, Scope::Object, Support::Implemented, Values::One("name"), "Set footer font name (default Arial)"),
        OptionSpec::new("footer-font-size", None, Scope::Object, Support::Implemented, Values::One("size"), "Set footer font size (default 12)"),
        OptionSpec::new("footer-html", None, Scope::Object, Support::Implemented, Values::One("url"), "Adds a html footer"),
        OptionSpec::new("footer-left", None, Scope::Object, Support::Implemented, Values::One("text"), "Left aligned footer text"),
        OptionSpec::flag("footer-line", None, Scope::Object, Support::Implemented, "Display line above the footer"),
        OptionSpec::flag("no-footer-line", None, Scope::Object, Support::Implemented, "Do not display line above the footer (default)"),
        OptionSpec::new("footer-right", None, Scope::Object, Support::Implemented, Values::One("text"), "Right aligned footer text"),
        OptionSpec::new("footer-spacing", None, Scope::Object, Support::Implemented, Values::One("real"), "Spacing between footer and content in mm (default 0)"),
        OptionSpec::new("header-center", None, Scope::Object, Support::Implemented, Values::One("text"), "Centered header text"),
        OptionSpec::new("header-font-name", None, Scope::Object, Support::Implemented, Values::One("name"), "Set header font name (default Arial)"),
        OptionSpec::new("header-font-size", None, Scope::Object, Support::Implemented, Values::One("size"), "Set header font size (default 12)"),
        OptionSpec::new("header-html", None, Scope::Object, Support::Implemented, Values::One("url"), "Adds a html header"),
        OptionSpec::new("header-left", None, Scope::Object, Support::Implemented, Values::One("text"), "Left aligned header text"),
        OptionSpec::flag("header-line", None, Scope::Object, Support::Implemented, "Display line below the header"),
        OptionSpec::flag("no-header-line", None, Scope::Object, Support::Implemented, "Do not display line below the header (default)"),
        OptionSpec::new("header-right", None, Scope::Object, Support::Implemented, Values::One("text"), "Right aligned header text"),
        OptionSpec::new("header-spacing", None, Scope::Object, Support::Implemented, Values::One("real"), "Spacing between header and content in mm (default 0)"),
        OptionSpec::new("replace", None, Scope::Object, Support::Implemented, Values::Two("name", "value"), "Replace [name] with value in header and footer (repeatable)").repeats(),
    ]
}

/// The options under "Headers And Footer Options".
pub fn header_footer_options() -> (options: Vec<OptionSpec>)
    ensures
        options@ == header_footer_table(),
{
    let options = vec![
        OptionSpec::new("footer-center", None, Scope::Object, Support::Implemented, Values::One("text"), "Centered footer text"),
        OptionSpec::new("footer-font-name", None, Scope::Object, Support::Implemented, Values::One("name"), "Set footer font name (default Arial)"),
        OptionSpec::new("footer-font-size", None, Scope::Object, Support::Implemented, Values::One("size"), "Set footer font size (default 12)"),
        OptionSpec::new("footer-html", None, Scope::Object, Support::Implemented, Values::One("url"), "Adds a html footer"),
        OptionSpec::new("footer-left", None, Scope::Object, Support::Implemented, Values::One("text"), "Left aligned footer text"),
        OptionSpec::flag("footer-line", None, Scope::Object, Support::Implemented, "Display line above the footer"),
        OptionSpec::flag("no-footer-line", None, Scope::Object, Support::Implemented, "Do not display line above the footer (default)"),
        OptionSpec::new("footer-right", None, Scope::Object, Support::Implemented, Values::One("text"), "Right aligned footer text"),
        OptionSpec::new("footer-spacing", None, Scope::Object, Support::Implemented, Values::One("real"), "Spacing between footer and content in mm (default 0)"),
        OptionSpec::new("header-center", None, Scope::Object, Support::Implemented, Values::One("text"), "Centered header text"),
        OptionSpec::new("header-font-name", None, Scope::Object, Support::Implemented, Values::One("name"), "Set header font name (default Arial)"),
        OptionSpec::new("header-font-size", None, Scope::Object, Support::Implemented, Values::One("size"), "Set header font size (default 12)"),
        OptionSpec::new("header-html", None, Scope::Object, Support::Implemented, Values::One("url"), "Adds a html header"),
        OptionSpec::new("header-left", None, Scope::Object, Support::Implemented, Values::One("text"), "Left aligned header text"),
        OptionSpec::flag("header-line", None, Scope::Object, Support::Implemented, "Display line below the header"),
        OptionSpec::flag("no-header-line", None, Scope::Object, Support::Implemented, "Do not display line below the header (default)"),
        OptionSpec::new("header-right", None, Scope::Object, Support::Implemented, Values::One("text"), "Right aligned header text"),
        OptionSpec::new("header-spacing", None, Scope::Object, Support::Implemented, Values::One("real"), "Spacing between header and content in mm (default 0)"),
        OptionSpec::new("replace", None, Scope::Object, Support::Implemented, Values::Two("name", "value"), "Replace [name] with value in header and footer (repeatable)").repeats(),
    ];
    proof {
        reveal(header_footer_table);
    }
    assert(options@ =~= header_footer_table());
    options
}

/// The rows under "TOC Options".
#[verifier::opaque]
pub open spec fn toc_table() -> Seq<OptionSpec> {
    seq![
        OptionSpec::flag("disable-dotted-lines", None, Scope::Toc, Support::Implemented, "Do not use dotted lines in the toc"),
        OptionSpec::new("toc-header-text", None, Scope::Toc, Support::Implemented, Values::One("text"), "The header text of the toc (default Table of Contents)"),
        OptionSpec::new("toc-level-indentation", None, Scope::Toc, Support::Implemented, Values::One("width"), "For each level of headings in the toc indent by this length (default 1em)"),
        OptionSpec::flag("disable-toc-links", None, Scope::Toc, Support::Implemented, "Do not link from toc to sections"),
        OptionSpec::new("toc-text-size-shrink", None, Scope::Toc, Support::Implemented, Values::One("real"), "For each level of headings in the toc the font is scaled by this factor (default 0.8)"),
        OptionSpec::new("xsl-style-sheet", None, Scope::Toc, Support::NoEquivalent("the table of contents is generated rather than transformed: Rust has no XSLT engine, and Chromium's is removed in Chrome 158 (D41)"), Values::One("file"), "Use the supplied xsl style sheet for printing the table of content"),
    ]
}

/// The options under "TOC Options".
pub fn toc_options() -> (options: Vec<OptionSpec>)
    ensures
        options@ == toc_table(),
{
    let options = vec![
        OptionSpec::flag("disable-dotted-lines", None, Scope::Toc, Support::Implemented, "Do not use dotted lines in the toc"),
        OptionSpec::new("toc-header-text", None, Scope::Toc, Support::Implemented, Values::One("text"), "The header text of the toc (default Table of Contents)"),
        OptionSpec::new("toc-level-indentation", None, Scope::Toc, Support::Implemented, Values::One("width"), "For each level of headings in the toc indent by this length (default 1em)"),
        OptionSpec::flag("disable-toc-links", None, Scope::Toc, Support::Implemented, "Do not link from toc to sections"),
        OptionSpec::new("toc-text-size-shrink", None, Scope::Toc, Support::Implemented, Values::One("real"), "For each level of headings in the toc the font is scaled by this factor (default 0.8)"),
        OptionSpec::new("xsl-style-sheet", None, Scope::Toc, Support::NoEquivalent("the table of contents is generated rather than transformed: Rust has no XSLT engine, and Chromium's is removed in Chrome 158 (D41)"), Values::One("file"), "Use the supplied xsl style sheet for printing the table of content"),
    ];
    proof {
        reveal(toc_table);
    }
    assert(options@ =~= toc_table());
    options
}

/// The rows under "rchtmltopdf Options".
#[verifier::opaque]
pub open spec fn extension_table() -> Seq<OptionSpec> {
    seq![
        OptionSpec::flag("dump-chromium", None, Scope::Global, Support::Meta, "Report which browser would be used and where it was found, then exit"),
        OptionSpec::new("chromium-path", None, Scope::Global, Support::Extension, Values::One("path"), "Path to the Chromium or chrome-headless-shell binary to drive"),
        OptionSpec::new("chromium-arg", None, Scope::Global, Support::Extension, Values::One("arg"), "Pass an extra command line flag to Chromium (repeatable)").repeats(),
        OptionSpec::flag("no-sandbox", None, Scope::Global, Support::Extension, "Launch Chromium without its sandbox, for containers that cannot provide one"),
        OptionSpec::new("timeout", None, Scope::Global, Support::Extension, Values::One("seconds"), "Abort the whole conversion after this many seconds (default 30, 0 disables)"),
        OptionSpec::flag("dump-parse", None, Scope::Global, Support::Extension, "Print how the command line was understood, then exit without converting"),
    ]
}

/// The options under "rchtmltopdf Options".
pub fn extension_options() -> (options: Vec<OptionSpec>)
    ensures
        options@ == extension_table(),
{
    let options = vec![
        OptionSpec::flag("dump-chromium", None, Scope::Global, Support::Meta, "Report which browser would be used and where it was found, then exit"),
        OptionSpec::new("chromium-path", None, Scope::Global, Support::Extension, Values::One("path"), "Path to the Chromium or chrome-headless-shell binary to drive"),
        OptionSpec::new("chromium-arg", None, Scope::Global, Support::Extension, Values::One("arg"), "Pass an extra command line flag to Chromium (repeatable)").repeats(),
        OptionSpec::flag("no-sandbox", None, Scope::Global, Support::Extension, "Launch Chromium without its sandbox, for containers that cannot provide one"),
        OptionSpec::new("timeout", None, Scope::Global, Support::Extension, Values::One("seconds"), "Abort the whole conversion after this many seconds (default 30, 0 disables)"),
        OptionSpec::flag("dump-parse", None, Scope::Global, Support::Extension, "Print how the command line was understood, then exit without converting"),
    ];
    proof {
        reveal(extension_table);
    }
    assert(options@ =~= extension_table());
    options
}

/// The whole table, section after section.
pub open spec fn table() -> Seq<OptionSpec> {
    general_table() + outline_table() + page_table() + header_footer_table() + toc_table()
        + extension_table()
}

/// Every option, in the order of the help.
pub fn all() -> (options: Vec<OptionSpec>)
    ensures
        options@ == table(),
{
    let mut options = general_options();
    let mut outline = outline_options();
    let mut page = page_options();
    let mut header_footer = header_footer_options();
    let mut toc = toc_options();
    let mut extension = extension_options();
    options.append(&mut outline);
    options.append(&mut page);
    options.append(&mut header_footer);
    options.append(&mut toc);
    options.append(&mut extension);
    options
}

/// A heading of the help and the options under it.
#[derive(Debug)]
pub struct Section {
    pub title: &'static str,
    pub options: Vec<OptionSpec>,
}

/// The sections of the help, in order.
pub open spec fn headings() -> Seq<(&'static str, Seq<OptionSpec>)> {
    seq![
        ("General Options", general_table()),
        ("Outline Options", outline_table()),
        ("Page Options", page_table()),
        ("Headers And Footer Options", header_footer_table()),
        ("TOC Options", toc_table()),
        ("rchtmltopdf Options", extension_table()),
    ]
}

/// The sections of the help, in order.
pub fn sections() -> (sections: Vec<Section>)
    ensures
        sections@.map_values(|s: Section| (s.title, s.options@)) == headings(),
{
    let mut sections: Vec<Section> = Vec::new();
    sections.push(Section { title: "General Options", options: general_options() });
    sections.push(Section { title: "Outline Options", options: outline_options() });
    sections.push(Section { title: "Page Options", options: page_options() });
    sections.push(
        Section { title: "Headers And Footer Options", options: header_footer_options() },
    );
    sections.push(Section { title: "TOC Options", options: toc_options() });
    sections.push(Section { title: "rchtmltopdf Options", options: extension_options() });
    assert(sections@.map_values(|s: Section| (s.title, s.options@)) =~= headings());
    sections
}

/// The first option of a list with a long name.
pub open spec fn long_in(options: Seq<OptionSpec>, name: Seq<char>) -> Option<OptionSpec>
    decreases options.len(),
{
    if options.len() == 0 {
        None
    } else if options[0].long@ == name {
        Some(options[0])
    } else {
        long_in(options.skip(1), name)
    }
}

/// The first option of a list with a short letter.
pub open spec fn short_in(options: Seq<OptionSpec>, letter: char) -> Option<OptionSpec>
    decreases options.len(),
{
    if options.len() == 0 {
        None
    } else if options[0].short == Some(letter) {
        Some(options[0])
    } else {
        short_in(options.skip(1), letter)
    }
}

/// The option with a long name, written without dashes.
pub fn lookup_long(name: &str) -> (found: Option<OptionSpec>)
    ensures
        found == long_in(table(), name@),
{
    let options = all();
    let mut at: usize = 0;
    assert(options@.skip(0) =~= options@);
    while at < options.len()
        invariant
            at <= options@.len(),
            options@ == table(),
            long_in(table(), name@) == long_in(options@.skip(at as int), name@),
        decreases options@.len() - at,
    {
        let spec = options[at];
        if same(spec.long, name) {
            return Some(spec);
        }
        assert(options@.skip(at as int).skip(1) =~= options@.skip(at + 1));
        at = at + 1;
    }
    None
}

/// The option with a short letter.
pub fn lookup_short(letter: char) -> (found: Option<OptionSpec>)
    ensures
        found == short_in(table(), letter),
{
    let options = all();
    let mut at: usize = 0;
    assert(options@.skip(0) =~= options@);
    while at < options.len()
        invariant
            at <= options@.len(),
            options@ == table(),
            short_in(table(), letter) == short_in(options@.skip(at as int), letter),
        decreases options@.len() - at,
    {
        let spec = options[at];
        if let Some(own) = spec.short {
            if own == letter {
                return Some(spec);
            }
        }
        assert(options@.skip(at as int).skip(1) =~= options@.skip(at + 1));
        at = at + 1;
    }
    None
}

/// What a lookup by long name gives back is a row of the table, it carries that
/// name, and no row before it does; and it gives nothing back exactly where no
/// row carries the name.
pub proof fn law_lookup_long(options: Seq<OptionSpec>, name: Seq<char>)
    ensures
        match long_in(options, name) {
            Some(spec) => exists|i: int|
                0 <= i < options.len() && #[trigger] options[i] == spec && spec.long@ == name
                    && forall|j: int| 0 <= j < i ==> (#[trigger] options[j]).long@ != name,
            None => forall|i: int| 0 <= i < options.len() ==> (#[trigger] options[i]).long@ != name,
        },
    decreases options.len(),
{
    if options.len() > 0 && options[0].long@ != name {
        let rest = options.skip(1);
        law_lookup_long(rest, name);
        assert(forall|i: int| 0 <= i < rest.len() ==> rest[i] == #[trigger] options[i + 1]);
        match long_in(rest, name) {
            Some(spec) => {
                let i = choose|i: int|
                    0 <= i < rest.len() && #[trigger] rest[i] == spec && spec.long@ == name
                        && forall|j: int| 0 <= j < i ==> (#[trigger] rest[j]).long@ != name;
                assert(options[i + 1] == spec);
                assert forall|j: int| 0 <= j < i + 1 implies (#[trigger] options[j]).long@
                    != name by {
                    if j > 0 {
                        assert(rest[j - 1] == options[j]);
                    }
                }
            },
            None => {
                assert forall|j: int| 0 <= j < options.len() implies (#[trigger] options[j]).long@
                    != name by {
                    if j > 0 {
                        assert(rest[j - 1] == options[j]);
                    }
                }
            },
        }
    }
}

/// The scope that the options under each heading have.
pub open spec fn scoped(options: Seq<OptionSpec>, scope: Scope) -> bool {
    forall|i: int| 0 <= i < options.len() ==> (#[trigger] options[i]).scope == scope
}

/// Options of the run stand under the general, outline and extension headings,
/// options of an object under the page and band headings, and options of a
/// table of contents under its own.
pub proof fn law_scope_matches_section()
    ensures
        scoped(general_table(), Scope::Global),
        scoped(outline_table(), Scope::Global),
        scoped(extension_table(), Scope::Global),
        scoped(page_table(), Scope::Object),
        scoped(header_footer_table(), Scope::Object),
        scoped(toc_table(), Scope::Toc),
{
    reveal(general_table);
    reveal(outline_table);
    reveal(extension_table);
    reveal(page_table);
    reveal(header_footer_table);
    reveal(toc_table);
}

/// No option takes more than two values, and one that repeats takes at least one.
pub proof fn law_arity(i: int)
    requires
        0 <= i < table().len(),
    ensures
        table()[i].arity_of() <= 2,
        table()[i].repeatable ==> table()[i].arity_of() > 0,
{
    reveal(general_table);
    reveal(outline_table);
    reveal(extension_table);
    reveal(page_table);
    reveal(header_footer_table);
    reveal(toc_table);
}

/// A letter of a name, as a number.
spec fn letter(name: Seq<char>, at: int) -> int {
    if 0 <= at < name.len() {
        name[at] as int
    } else {
        0
    }
}

/// A number that tells the names of the table apart, by four of their letters.
spec fn mark(name: Seq<char>) -> int {
    letter(name, 0) + 0x80 * letter(name, 8) + 0x4000 * letter(name, name.len() - 2) + 0x20_0000
        * letter(name, name.len() - 8)
}

/// The row with a mark.
spec fn marked_row(mark: int) -> int {
    if mark == 0x1d0063 {
        0
    } else if mark == 0x5bd3a6e {
        1
    } else if mark == 0xdf870e3 {
        2
    } else if mark == 0x194063 {
        3
    } else if mark == 0x1c0064 {
        4
    } else if mark == 0xc9b16e5 {
        5
    } else if mark == 0xe5b32e7 {
        6
    } else if mark == 0x1b0068 {
        7
    } else if mark == 0x1bc068 {
        8
    } else if mark == 0xdbc34e9 {
        9
    } else if mark == 0x5bd30e9 {
        10
    } else if mark == 0x1cc06c {
        11
    } else if mark == 0xdf9766c {
        12
    } else if mark == 0xefd3a6c {
        13
    } else if mark == 0x19c06d {
        14
    } else if mark == 0xddbf7ed {
        15
    } else if mark == 0xcf9b2ed {
        16
    } else if mark == 0xd3a34ed {
        17
    } else if mark == 0xe5bf7ed {
        18
    } else if mark == 0xcbbf4ef {
        19
    } else if mark == 0xcba33f0 {
        20
    } else if mark == 0xc3eb2f0 {
        21
    } else if mark == 0xcfd3a70 {
        22
    } else if mark == 0xe1bf7ee {
        23
    } else if mark == 0x194071 {
        24
    } else if mark == 0xdfa79f2 {
        25
    } else if mark == 0x1b4072 {
        26
    } else if mark == 0x1b0074 {
        27
    } else if mark == 0x5b97b75 {
        28
    } else if mark == 0x1bc076 {
        29
    } else if mark == 0x5bcf0e4 {
        30
    } else if mark == 0x5bbb664 {
        31
    } else if mark == 0x1b806f {
        32
    } else if mark == 0x5bbb76e {
        33
    } else if mark == 0xddd326f {
        34
    } else if mark == 0x1bc061 {
        35
    } else if mark == 0xc7bb762 {
        36
    } else if mark == 0xc7bb96e {
        37
    } else if mark == 0xe5bf962 {
        38
    } else if mark == 0xc3a7963 {
        39
    } else if mark == 0xc7d96e3 {
        40
    } else if mark == 0xd7d96e3 {
        41
    } else if mark == 0x1a4063 {
        42
    } else if mark == 0xdb972e3 {
        43
    } else if mark == 0xe1bf2e3 {
        44
    } else if mark == 0xe1bf6ee {
        45
    } else if mark == 0xedc3b64 {
        46
    } else if mark == 0xedc16ee {
        47
    } else if mark == 0xe997464 {
        48
    } else if mark == 0xcbb8065 {
        49
    } else if mark == 0xc3af2e4 {
        50
    } else if mark == 0xc3afc65 {
        51
    } else if mark == 0xd9b7364 {
        52
    } else if mark == 0xd9b77e5 {
        53
    } else if mark == 0x194069 {
        54
    } else if mark == 0xdf979ee {
        55
    } else if mark == 0xc3af4e4 {
        56
    } else if mark == 0xc3af765 {
        57
    } else if mark == 0xedc3564 {
        58
    } else if mark == 0xedc30e5 {
        59
    } else if mark == 0xe18786a {
        60
    } else if mark == 0xedaf0eb {
        61
    } else if mark == 0xd1bb7ec {
        62
    } else if mark == 0xd1bb4ec {
        63
    } else if mark == 0xcbcf664 {
        64
    } else if mark == 0xcbcf7e5 {
        65
    } else if mark == 0xdfeb36d {
        66
    } else if mark == 0x5bbb365 {
        67
    } else if mark == 0x5bbb4e9 {
        68
    } else if mark == 0xcb979f0 {
        69
    } else if mark == 0xe1c8070 {
        70
    } else if mark == 0x5bbb864 {
        71
    } else if mark == 0x5bbb665 {
        72
    } else if mark == 0x1cc070 {
        73
    } else if mark == 0xdfb32f0 {
        74
    } else if mark == 0xc9c3270 {
        75
    } else if mark == 0xc9c16ee {
        76
    } else if mark == 0x1e0070 {
        77
    } else if mark == 0xcbd79f0 {
        78
    } else if mark == 0xc7dba72 {
        79
    } else if mark == 0xe9dba72 {
        80
    } else if mark == 0xedaf972 {
        81
    } else if mark == 0xddc3872 {
        82
    } else if mark == 0xd1bb9e4 {
        83
    } else if mark == 0xd1bb6e5 {
        84
    } else if mark == 0xc7d3873 {
        85
    } else if mark == 0xe1cb873 {
        86
    } else if mark == 0xd7d3873 {
        87
    } else if mark == 0x5bd3bf3 {
        88
    } else if mark == 0x5bd39ee {
        89
    } else if mark == 0xc7afa64 {
        90
    } else if mark == 0xc7af7e5 {
        91
    } else if mark == 0xd997675 {
        92
    } else if mark == 0xebb4075 {
        93
    } else if mark == 0xdfe96f6 {
        94
    } else if mark == 0xefd7a77 {
        95
    } else if mark == 0x1bc07a {
        96
    } else if mark == 0xe5972e6 {
        97
    } else if mark == 0xdfb77e6 {
        98
    } else if mark == 0xdfeb7e6 {
        99
    } else if mark == 0xe9b7a66 {
        100
    } else if mark == 0xe99b2e6 {
        101
    } else if mark == 0xe9bb4e6 {
        102
    } else if mark == 0xe9bb96e {
        103
    } else if mark == 0xcba34e6 {
        104
    } else if mark == 0x5bbb866 {
        105
    } else if mark == 0xe5972e8 {
        106
    } else if mark == 0xdfb77e8 {
        107
    } else if mark == 0xdfeb7e8 {
        108
    } else if mark == 0xc9b7a68 {
        109
    } else if mark == 0xc99b2e8 {
        110
    } else if mark == 0xc9bb4e8 {
        111
    } else if mark == 0xc9bb96e {
        112
    } else if mark == 0xcba34e8 {
        113
    } else if mark == 0x5bbb868 {
        114
    } else if mark == 0x18c072 {
        115
    } else if mark == 0xcb97264 {
        116
    } else if mark == 0xc9e32f4 {
        117
    } else if mark == 0xcbbf674 {
        118
    } else if mark == 0xdfafa64 {
        119
    } else if mark == 0xcbb96f4 {
        120
    } else if mark == 0xd9972f8 {
        121
    } else if mark == 0xc7d77e4 {
        122
    } else if mark == 0xd3d16e3 {
        123
    } else if mark == 0xdbc96e3 {
        124
    } else if mark == 0x5bbf7ee {
        125
    } else if mark == 0x1d4074 {
        126
    } else if mark == 0xdbcf9e4 {
        127
    } else {
        -1
    }
}

/// A name of lower-case letters and dashes that does not begin with a dash.
pub open spec fn is_plain_name(name: Seq<char>) -> bool {
    &&& name.len() > 0
    &&& name[0] != '-'
    &&& forall|i: int|
        0 <= i < name.len() ==> ('a' <= #[trigger] name[i] && name[i] <= 'z') || name[i] == '-'
}

/// The row with a letter.
spec fn lettered_row(letter: char) -> int {
    if letter == 'd' {
        4
    } else if letter == 'H' {
        5
    } else if letter == 'g' {
        6
    } else if letter == 'h' {
        7
    } else if letter == 'l' {
        13
    } else if letter == 'B' {
        15
    } else if letter == 'L' {
        16
    } else if letter == 'R' {
        17
    } else if letter == 'T' {
        18
    } else if letter == 'O' {
        19
    } else if letter == 's' {
        21
    } else if letter == 'q' {
        24
    } else if letter == 'V' {
        29
    } else if letter == 'n' {
        58
    } else if letter == 'p' {
        77
    } else {
        -1
    }
}

/// The row of an option stands where its name says, and where its letter does,
/// if it has one. The name is a plain one.
spec fn stands_at(spec: OptionSpec, row: int) -> bool {
    &&& marked_row(mark(spec.long@)) == row
    &&& is_plain_name(spec.long@)
    &&& spec.short is Some ==> lettered_row(spec.short->0) == row
}

#[verifier::spinoff_prover]
proof fn lemma_general_rows()
    ensures
        general_table().len() == 30,
        forall|i: int| 0 <= i < 30 ==> stands_at(#[trigger] general_table()[i], i),
{
    reveal(general_table);
    reveal_strlit("collate");
    assert(mark("collate"@) == 0x1d0063);
    assert(is_plain_name("collate"@));
    reveal_strlit("no-collate");
    assert(mark("no-collate"@) == 0x5bd3a6e);
    assert(is_plain_name("no-collate"@));
    reveal_strlit("cookie-jar");
    assert(mark("cookie-jar"@) == 0xdf870e3);
    assert(is_plain_name("cookie-jar"@));
    reveal_strlit("copies");
    assert(mark("copies"@) == 0x194063);
    assert(is_plain_name("copies"@));
    reveal_strlit("dpi");
    assert(mark("dpi"@) == 0x1c0064);
    assert(is_plain_name("dpi"@));
    reveal_strlit("extended-help");
    assert(mark("extended-help"@) == 0xc9b16e5);
    assert(is_plain_name("extended-help"@));
    reveal_strlit("grayscale");
    assert(mark("grayscale"@) == 0xe5b32e7);
    assert(is_plain_name("grayscale"@));
    reveal_strlit("help");
    assert(mark("help"@) == 0x1b0068);
    assert(is_plain_name("help"@));
    reveal_strlit("htmldoc");
    assert(mark("htmldoc"@) == 0x1bc068);
    assert(is_plain_name("htmldoc"@));
    reveal_strlit("image-dpi");
    assert(mark("image-dpi"@) == 0xdbc34e9);
    assert(is_plain_name("image-dpi"@));
    reveal_strlit("image-quality");
    assert(mark("image-quality"@) == 0x5bd30e9);
    assert(is_plain_name("image-quality"@));
    reveal_strlit("license");
    assert(mark("license"@) == 0x1cc06c);
    assert(is_plain_name("license"@));
    reveal_strlit("log-level");
    assert(mark("log-level"@) == 0xdf9766c);
    assert(is_plain_name("log-level"@));
    reveal_strlit("lowquality");
    assert(mark("lowquality"@) == 0xefd3a6c);
    assert(is_plain_name("lowquality"@));
    reveal_strlit("manpage");
    assert(mark("manpage"@) == 0x19c06d);
    assert(is_plain_name("manpage"@));
    reveal_strlit("margin-bottom");
    assert(mark("margin-bottom"@) == 0xddbf7ed);
    assert(is_plain_name("margin-bottom"@));
    reveal_strlit("margin-left");
    assert(mark("margin-left"@) == 0xcf9b2ed);
    assert(is_plain_name("margin-left"@));
    reveal_strlit("margin-right");
    assert(mark("margin-right"@) == 0xd3a34ed);
    assert(is_plain_name("margin-right"@));
    reveal_strlit("margin-top");
    assert(mark("margin-top"@) == 0xe5bf7ed);
    assert(is_plain_name("margin-top"@));
    reveal_strlit("orientation");
    assert(mark("orientation"@) == 0xcbbf4ef);
    assert(is_plain_name("orientation"@));
    reveal_strlit("page-height");
    assert(mark("page-height"@) == 0xcba33f0);
    assert(is_plain_name("page-height"@));
    reveal_strlit("page-size");
    assert(mark("page-size"@) == 0xc3eb2f0);
    assert(is_plain_name("page-size"@));
    reveal_strlit("page-width");
    assert(mark("page-width"@) == 0xcfd3a70);
    assert(is_plain_name("page-width"@));
    reveal_strlit("no-pdf-compression");
    assert(mark("no-pdf-compression"@) == 0xe1bf7ee);
    assert(is_plain_name("no-pdf-compression"@));
    reveal_strlit("quiet");
    assert(mark("quiet"@) == 0x194071);
    assert(is_plain_name("quiet"@));
    reveal_strlit("read-args-from-stdin");
    assert(mark("read-args-from-stdin"@) == 0xdfa79f2);
    assert(is_plain_name("read-args-from-stdin"@));
    reveal_strlit("readme");
    assert(mark("readme"@) == 0x1b4072);
    assert(is_plain_name("readme"@));
    reveal_strlit("title");
    assert(mark("title"@) == 0x1b0074);
    assert(is_plain_name("title"@));
    reveal_strlit("use-xserver");
    assert(mark("use-xserver"@) == 0x5b97b75);
    assert(is_plain_name("use-xserver"@));
    reveal_strlit("version");
    assert(mark("version"@) == 0x1bc076);
    assert(is_plain_name("version"@));
}

#[verifier::spinoff_prover]
proof fn lemma_outline_rows()
    ensures
        outline_table().len() == 5,
        forall|i: int| 0 <= i < 5 ==> stands_at(#[trigger] outline_table()[i], 30 + i),
{
    reveal(outline_table);
    reveal_strlit("dump-default-toc-xsl");
    assert(mark("dump-default-toc-xsl"@) == 0x5bcf0e4);
    assert(is_plain_name("dump-default-toc-xsl"@));
    reveal_strlit("dump-outline");
    assert(mark("dump-outline"@) == 0x5bbb664);
    assert(is_plain_name("dump-outline"@));
    reveal_strlit("outline");
    assert(mark("outline"@) == 0x1b806f);
    assert(is_plain_name("outline"@));
    reveal_strlit("no-outline");
    assert(mark("no-outline"@) == 0x5bbb76e);
    assert(is_plain_name("no-outline"@));
    reveal_strlit("outline-depth");
    assert(mark("outline-depth"@) == 0xddd326f);
    assert(is_plain_name("outline-depth"@));
}

#[verifier::spinoff_prover]
proof fn lemma_page_rows()
    ensures
        page_table().len() == 62,
        forall|i: int| 0 <= i < 62 ==> stands_at(#[trigger] page_table()[i], 35 + i),
{
    reveal(page_table);
    reveal_strlit("allow");
    assert(mark("allow"@) == 0x1bc061);
    assert(is_plain_name("allow"@));
    reveal_strlit("background");
    assert(mark("background"@) == 0xc7bb762);
    assert(is_plain_name("background"@));
    reveal_strlit("no-background");
    assert(mark("no-background"@) == 0xc7bb96e);
    assert(is_plain_name("no-background"@));
    reveal_strlit("bypass-proxy-for");
    assert(mark("bypass-proxy-for"@) == 0xe5bf962);
    assert(is_plain_name("bypass-proxy-for"@));
    reveal_strlit("cache-dir");
    assert(mark("cache-dir"@) == 0xc3a7963);
    assert(is_plain_name("cache-dir"@));
    reveal_strlit("checkbox-checked-svg");
    assert(mark("checkbox-checked-svg"@) == 0xc7d96e3);
    assert(is_plain_name("checkbox-checked-svg"@));
    reveal_strlit("checkbox-svg");
    assert(mark("checkbox-svg"@) == 0xd7d96e3);
    assert(is_plain_name("checkbox-svg"@));
    reveal_strlit("cookie");
    assert(mark("cookie"@) == 0x1a4063);
    assert(is_plain_name("cookie"@));
    reveal_strlit("custom-header");
    assert(mark("custom-header"@) == 0xdb972e3);
    assert(is_plain_name("custom-header"@));
    reveal_strlit("custom-header-propagation");
    assert(mark("custom-header-propagation"@) == 0xe1bf2e3);
    assert(is_plain_name("custom-header-propagation"@));
    reveal_strlit("no-custom-header-propagation");
    assert(mark("no-custom-header-propagation"@) == 0xe1bf6ee);
    assert(is_plain_name("no-custom-header-propagation"@));
    reveal_strlit("debug-javascript");
    assert(mark("debug-javascript"@) == 0xedc3b64);
    assert(is_plain_name("debug-javascript"@));
    reveal_strlit("no-debug-javascript");
    assert(mark("no-debug-javascript"@) == 0xedc16ee);
    assert(is_plain_name("no-debug-javascript"@));
    reveal_strlit("default-header");
    assert(mark("default-header"@) == 0xe997464);
    assert(is_plain_name("default-header"@));
    reveal_strlit("encoding");
    assert(mark("encoding"@) == 0xcbb8065);
    assert(is_plain_name("encoding"@));
    reveal_strlit("disable-external-links");
    assert(mark("disable-external-links"@) == 0xc3af2e4);
    assert(is_plain_name("disable-external-links"@));
    reveal_strlit("enable-external-links");
    assert(mark("enable-external-links"@) == 0xc3afc65);
    assert(is_plain_name("enable-external-links"@));
    reveal_strlit("disable-forms");
    assert(mark("disable-forms"@) == 0xd9b7364);
    assert(is_plain_name("disable-forms"@));
    reveal_strlit("enable-forms");
    assert(mark("enable-forms"@) == 0xd9b77e5);
    assert(is_plain_name("enable-forms"@));
    reveal_strlit("images");
    assert(mark("images"@) == 0x194069);
    assert(is_plain_name("images"@));
    reveal_strlit("no-images");
    assert(mark("no-images"@) == 0xdf979ee);
    assert(is_plain_name("no-images"@));
    reveal_strlit("disable-internal-links");
    assert(mark("disable-internal-links"@) == 0xc3af4e4);
    assert(is_plain_name("disable-internal-links"@));
    reveal_strlit("enable-internal-links");
    assert(mark("enable-internal-links"@) == 0xc3af765);
    assert(is_plain_name("enable-internal-links"@));
    reveal_strlit("disable-javascript");
    assert(mark("disable-javascript"@) == 0xedc3564);
    assert(is_plain_name("disable-javascript"@));
    reveal_strlit("enable-javascript");
    assert(mark("enable-javascript"@) == 0xedc30e5);
    assert(is_plain_name("enable-javascript"@));
    reveal_strlit("javascript-delay");
    assert(mark("javascript-delay"@) == 0xe18786a);
    assert(is_plain_name("javascript-delay"@));
    reveal_strlit("keep-relative-links");
    assert(mark("keep-relative-links"@) == 0xedaf0eb);
    assert(is_plain_name("keep-relative-links"@));
    reveal_strlit("load-error-handling");
    assert(mark("load-error-handling"@) == 0xd1bb7ec);
    assert(is_plain_name("load-error-handling"@));
    reveal_strlit("load-media-error-handling");
    assert(mark("load-media-error-handling"@) == 0xd1bb4ec);
    assert(is_plain_name("load-media-error-handling"@));
    reveal_strlit("disable-local-file-access");
    assert(mark("disable-local-file-access"@) == 0xcbcf664);
    assert(is_plain_name("disable-local-file-access"@));
    reveal_strlit("enable-local-file-access");
    assert(mark("enable-local-file-access"@) == 0xcbcf7e5);
    assert(is_plain_name("enable-local-file-access"@));
    reveal_strlit("minimum-font-size");
    assert(mark("minimum-font-size"@) == 0xdfeb36d);
    assert(is_plain_name("minimum-font-size"@));
    reveal_strlit("exclude-from-outline");
    assert(mark("exclude-from-outline"@) == 0x5bbb365);
    assert(is_plain_name("exclude-from-outline"@));
    reveal_strlit("include-in-outline");
    assert(mark("include-in-outline"@) == 0x5bbb4e9);
    assert(is_plain_name("include-in-outline"@));
    reveal_strlit("page-offset");
    assert(mark("page-offset"@) == 0xcb979f0);
    assert(is_plain_name("page-offset"@));
    reveal_strlit("password");
    assert(mark("password"@) == 0xe1c8070);
    assert(is_plain_name("password"@));
    reveal_strlit("disable-plugins");
    assert(mark("disable-plugins"@) == 0x5bbb864);
    assert(is_plain_name("disable-plugins"@));
    reveal_strlit("enable-plugins");
    assert(mark("enable-plugins"@) == 0x5bbb665);
    assert(is_plain_name("enable-plugins"@));
    reveal_strlit("post");
    assert(mark("post"@) == 0x1cc070);
    assert(is_plain_name("post"@));
    reveal_strlit("post-file");
    assert(mark("post-file"@) == 0xdfb32f0);
    assert(is_plain_name("post-file"@));
    reveal_strlit("print-media-type");
    assert(mark("print-media-type"@) == 0xc9c3270);
    assert(is_plain_name("print-media-type"@));
    reveal_strlit("no-print-media-type");
    assert(mark("no-print-media-type"@) == 0xc9c16ee);
    assert(is_plain_name("no-print-media-type"@));
    reveal_strlit("proxy");
    assert(mark("proxy"@) == 0x1e0070);
    assert(is_plain_name("proxy"@));
    reveal_strlit("proxy-hostname-lookup");
    assert(mark("proxy-hostname-lookup"@) == 0xcbd79f0);
    assert(is_plain_name("proxy-hostname-lookup"@));
    reveal_strlit("radiobutton-checked-svg");
    assert(mark("radiobutton-checked-svg"@) == 0xc7dba72);
    assert(is_plain_name("radiobutton-checked-svg"@));
    reveal_strlit("radiobutton-svg");
    assert(mark("radiobutton-svg"@) == 0xe9dba72);
    assert(is_plain_name("radiobutton-svg"@));
    reveal_strlit("resolve-relative-links");
    assert(mark("resolve-relative-links"@) == 0xedaf972);
    assert(is_plain_name("resolve-relative-links"@));
    reveal_strlit("run-script");
    assert(mark("run-script"@) == 0xddc3872);
    assert(is_plain_name("run-script"@));
    reveal_strlit("disable-smart-shrinking");
    assert(mark("disable-smart-shrinking"@) == 0xd1bb9e4);
    assert(is_plain_name("disable-smart-shrinking"@));
    reveal_strlit("enable-smart-shrinking");
    assert(mark("enable-smart-shrinking"@) == 0xd1bb6e5);
    assert(is_plain_name("enable-smart-shrinking"@));
    reveal_strlit("ssl-crt-path");
    assert(mark("ssl-crt-path"@) == 0xc7d3873);
    assert(is_plain_name("ssl-crt-path"@));
    reveal_strlit("ssl-key-password");
    assert(mark("ssl-key-password"@) == 0xe1cb873);
    assert(is_plain_name("ssl-key-password"@));
    reveal_strlit("ssl-key-path");
    assert(mark("ssl-key-path"@) == 0xd7d3873);
    assert(is_plain_name("ssl-key-path"@));
    reveal_strlit("stop-slow-scripts");
    assert(mark("stop-slow-scripts"@) == 0x5bd3bf3);
    assert(is_plain_name("stop-slow-scripts"@));
    reveal_strlit("no-stop-slow-scripts");
    assert(mark("no-stop-slow-scripts"@) == 0x5bd39ee);
    assert(is_plain_name("no-stop-slow-scripts"@));
    reveal_strlit("disable-toc-back-links");
    assert(mark("disable-toc-back-links"@) == 0xc7afa64);
    assert(is_plain_name("disable-toc-back-links"@));
    reveal_strlit("enable-toc-back-links");
    assert(mark("enable-toc-back-links"@) == 0xc7af7e5);
    assert(is_plain_name("enable-toc-back-links"@));
    reveal_strlit("user-style-sheet");
    assert(mark("user-style-sheet"@) == 0xd997675);
    assert(is_plain_name("user-style-sheet"@));
    reveal_strlit("username");
    assert(mark("username"@) == 0xebb4075);
    assert(is_plain_name("username"@));
    reveal_strlit("viewport-size");
    assert(mark("viewport-size"@) == 0xdfe96f6);
    assert(is_plain_name("viewport-size"@));
    reveal_strlit("window-status");
    assert(mark("window-status"@) == 0xefd7a77);
    assert(is_plain_name("window-status"@));
    reveal_strlit("zoom");
    assert(mark("zoom"@) == 0x1bc07a);
    assert(is_plain_name("zoom"@));
}

#[verifier::spinoff_prover]
proof fn lemma_header_footer_rows()
    ensures
        header_footer_table().len() == 19,
        forall|i: int| 0 <= i < 19 ==> stands_at(#[trigger] header_footer_table()[i], 97 + i),
{
    reveal(header_footer_table);
    reveal_strlit("footer-center");
    assert(mark("footer-center"@) == 0xe5972e6);
    assert(is_plain_name("footer-center"@));
    reveal_strlit("footer-font-name");
    assert(mark("footer-font-name"@) == 0xdfb77e6);
    assert(is_plain_name("footer-font-name"@));
    reveal_strlit("footer-font-size");
    assert(mark("footer-font-size"@) == 0xdfeb7e6);
    assert(is_plain_name("footer-font-size"@));
    reveal_strlit("footer-html");
    assert(mark("footer-html"@) == 0xe9b7a66);
    assert(is_plain_name("footer-html"@));
    reveal_strlit("footer-left");
    assert(mark("footer-left"@) == 0xe99b2e6);
    assert(is_plain_name("footer-left"@));
    reveal_strlit("footer-line");
    assert(mark("footer-line"@) == 0xe9bb4e6);
    assert(is_plain_name("footer-line"@));
    reveal_strlit("no-footer-line");
    assert(mark("no-footer-line"@) == 0xe9bb96e);
    assert(is_plain_name("no-footer-line"@));
    reveal_strlit("footer-right");
    assert(mark("footer-right"@) == 0xcba34e6);
    assert(is_plain_name("footer-right"@));
    reveal_strlit("footer-spacing");
    assert(mark("footer-spacing"@) == 0x5bbb866);
    assert(is_plain_name("footer-spacing"@));
    reveal_strlit("header-center");
    assert(mark("header-center"@) == 0xe5972e8);
    assert(is_plain_name("header-center"@));
    reveal_strlit("header-font-name");
    assert(mark("header-font-name"@) == 0xdfb77e8);
    assert(is_plain_name("header-font-name"@));
    reveal_strlit("header-font-size");
    assert(mark("header-font-size"@) == 0xdfeb7e8);
    assert(is_plain_name("header-font-size"@));
    reveal_strlit("header-html");
    assert(mark("header-html"@) == 0xc9b7a68);
    assert(is_plain_name("header-html"@));
    reveal_strlit("header-left");
    assert(mark("header-left"@) == 0xc99b2e8);
    assert(is_plain_name("header-left"@));
    reveal_strlit("header-line");
    assert(mark("header-line"@) == 0xc9bb4e8);
    assert(is_plain_name("header-line"@));
    reveal_strlit("no-header-line");
    assert(mark("no-header-line"@) == 0xc9bb96e);
    assert(is_plain_name("no-header-line"@));
    reveal_strlit("header-right");
    assert(mark("header-right"@) == 0xcba34e8);
    assert(is_plain_name("header-right"@));
    reveal_strlit("header-spacing");
    assert(mark("header-spacing"@) == 0x5bbb868);
    assert(is_plain_name("header-spacing"@));
    reveal_strlit("replace");
    assert(mark("replace"@) == 0x18c072);
    assert(is_plain_name("replace"@));
}

#[verifier::spinoff_prover]
proof fn lemma_toc_rows()
    ensures
        toc_table().len() == 6,
        forall|i: int| 0 <= i < 6 ==> stands_at(#[trigger] toc_table()[i], 116 + i),
{
    reveal(toc_table);
    reveal_strlit("disable-dotted-lines");
    assert(mark("disable-dotted-lines"@) == 0xcb97264);
    assert(is_plain_name("disable-dotted-lines"@));
    reveal_strlit("toc-header-text");
    assert(mark("toc-header-text"@) == 0xc9e32f4);
    assert(is_plain_name("toc-header-text"@));
    reveal_strlit("toc-level-indentation");
    assert(mark("toc-level-indentation"@) == 0xcbbf674);
    assert(is_plain_name("toc-level-indentation"@));
    reveal_strlit("disable-toc-links");
    assert(mark("disable-toc-links"@) == 0xdfafa64);
    assert(is_plain_name("disable-toc-links"@));
    reveal_strlit("toc-text-size-shrink");
    assert(mark("toc-text-size-shrink"@) == 0xcbb96f4);
    assert(is_plain_name("toc-text-size-shrink"@));
    reveal_strlit("xsl-style-sheet");
    assert(mark("xsl-style-sheet"@) == 0xd9972f8);
    assert(is_plain_name("xsl-style-sheet"@));
}

#[verifier::spinoff_prover]
proof fn lemma_extension_rows()
    ensures
        extension_table().len() == 6,
        forall|i: int| 0 <= i < 6 ==> stands_at(#[trigger] extension_table()[i], 122 + i),
{
    reveal(extension_table);
    reveal_strlit("dump-chromium");
    assert(mark("dump-chromium"@) == 0xc7d77e4);
    assert(is_plain_name("dump-chromium"@));
    reveal_strlit("chromium-path");
    assert(mark("chromium-path"@) == 0xd3d16e3);
    assert(is_plain_name("chromium-path"@));
    reveal_strlit("chromium-arg");
    assert(mark("chromium-arg"@) == 0xdbc96e3);
    assert(is_plain_name("chromium-arg"@));
    reveal_strlit("no-sandbox");
    assert(mark("no-sandbox"@) == 0x5bbf7ee);
    assert(is_plain_name("no-sandbox"@));
    reveal_strlit("timeout");
    assert(mark("timeout"@) == 0x1d4074);
    assert(is_plain_name("timeout"@));
    reveal_strlit("dump-parse");
    assert(mark("dump-parse"@) == 0xdbcf9e4);
    assert(is_plain_name("dump-parse"@));
}

proof fn lemma_rows()
    ensures
        table().len() == 128,
        forall|i: int| 0 <= i < 128 ==> stands_at(#[trigger] table()[i], i),
{
    lemma_general_rows();
    lemma_outline_rows();
    lemma_page_rows();
    lemma_header_footer_rows();
    lemma_toc_rows();
    lemma_extension_rows();
    assert forall|i: int| 0 <= i < 128 implies stands_at(#[trigger] table()[i], i) by {
        if i < 30 {
            assert(table()[i] == general_table()[i]);
        } else if i < 35 {
            assert(table()[i] == outline_table()[i - 30]);
        } else if i < 97 {
            assert(table()[i] == page_table()[i - 35]);
        } else if i < 116 {
            assert(table()[i] == header_footer_table()[i - 97]);
        } else if i < 122 {
            assert(table()[i] == toc_table()[i - 116]);
        } else {
            assert(table()[i] == extension_table()[i - 122]);
        }
    }
}

/// The options of `wkhtmltopdf` are all there, and behind them the few of this
/// program alone.
pub proof fn law_the_table_is_complete()
    ensures
        table().len() - extension_table().len() == 122,
        extension_table().len() == 6,
        forall|i: int| 122 <= i < table().len() ==> #[trigger] table()[i] == extension_table()[i
            - 122],
{
    lemma_rows();
    lemma_general_rows();
    lemma_outline_rows();
    lemma_page_rows();
    lemma_header_footer_rows();
    lemma_toc_rows();
    lemma_extension_rows();
}

/// No two options have one long name.
pub proof fn law_long_names_differ(i: int, j: int)
    requires
        0 <= i < j < table().len(),
    ensures
        table()[i].long@ != table()[j].long@,
{
    lemma_rows();
    assert(stands_at(table()[i], i) && stands_at(table()[j], j));
}

/// A long name is made of lower-case letters and dashes, a letter first, so that
/// it is written with two dashes before it, and with a value behind an equals
/// sign.
pub proof fn law_long_names_are_plain(i: int)
    requires
        0 <= i < table().len(),
    ensures
        is_plain_name(table()[i].long@),
{
    lemma_rows();
    assert(stands_at(table()[i], i));
}

/// A lookup by the long name of an option gives that option back.
pub proof fn law_lookup_long_finds_each_option(i: int)
    requires
        0 <= i < table().len(),
    ensures
        long_in(table(), table()[i].long@) == Some(table()[i]),
{
    let name = table()[i].long@;
    law_lookup_long(table(), name);
    if let Some(spec) = long_in(table(), name) {
        let k = choose|k: int|
            0 <= k < table().len() && #[trigger] table()[k] == spec && spec.long@ == name && forall|
                j: int,
            |
                0 <= j < k ==> (#[trigger] table()[j]).long@ != name;
        if k < i {
            law_long_names_differ(k, i);
        } else if k > i {
            law_long_names_differ(i, k);
        }
    }
}

/// No two options have one letter.
pub proof fn law_letters_differ(i: int, j: int)
    requires
        0 <= i < j < table().len(),
        table()[i].short is Some,
    ensures
        table()[i].short != table()[j].short,
{
    lemma_rows();
    assert(stands_at(table()[i], i) && stands_at(table()[j], j));
}

proof fn lemma_lookup_short(options: Seq<OptionSpec>, letter: char, i: int)
    requires
        0 <= i < options.len(),
        options[i].short == Some(letter),
        forall|j: int| 0 <= j < i ==> (#[trigger] options[j]).short != Some(letter),
    ensures
        short_in(options, letter) == Some(options[i]),
    decreases options.len(),
{
    if i > 0 {
        let rest = options.skip(1);
        assert(options[0].short != Some(letter));
        assert forall|j: int| 0 <= j < i - 1 implies (#[trigger] rest[j]).short != Some(
            letter,
        ) by {
            assert(rest[j] == options[j + 1]);
        }
        lemma_lookup_short(rest, letter, i - 1);
    }
}

/// A lookup by the letter of an option gives that option back, and a lookup by a
/// letter that no option has gives nothing.
pub proof fn law_lookup_short_finds_each_option(letter: char)
    ensures
        forall|i: int|
            0 <= i < table().len() && (#[trigger] table()[i]).short == Some(letter) ==> short_in(
                table(),
                letter,
            ) == Some(table()[i]),
        (forall|i: int| 0 <= i < table().len() ==> (#[trigger] table()[i]).short != Some(letter))
            ==> short_in(table(), letter) is None,
{
    assert forall|i: int|
        0 <= i < table().len() && (#[trigger] table()[i]).short == Some(letter) implies short_in(
        table(),
        letter,
    ) == Some(table()[i]) by {
        assert forall|j: int| 0 <= j < i implies (#[trigger] table()[j]).short != Some(letter) by {
            if table()[j].short == Some(letter) {
                law_letters_differ(j, i);
            }
        }
        lemma_lookup_short(table(), letter, i);
    }
    if forall|i: int| 0 <= i < table().len() ==> (#[trigger] table()[i]).short != Some(letter) {
        lemma_no_letter(table(), letter);
    }
}

proof fn lemma_no_letter(options: Seq<OptionSpec>, letter: char)
    requires
        forall|i: int| 0 <= i < options.len() ==> (#[trigger] options[i]).short != Some(letter),
    ensures
        short_in(options, letter) is None,
    decreases options.len(),
{
    if options.len() > 0 {
        let rest = options.skip(1);
        assert forall|i: int| 0 <= i < rest.len() implies (#[trigger] rest[i]).short != Some(
            letter,
        ) by {
            assert(rest[i] == options[i + 1]);
        }
        lemma_no_letter(rest, letter);
    }
}

/// An option that is found by its long name, with its letter, how many values it takes,
/// whether it adds to what was written before, and where it belongs.
#[verifier::opaque]
pub open spec fn is_listed(
    name: Seq<char>,
    letter: Option<char>,
    values: int,
    repeats: bool,
    scope: Scope,
) -> bool {
    long_in(table(), name) matches Some(spec) && spec.short == letter && spec.arity_of() == values
        && spec.repeatable == repeats && spec.scope == scope
}

/// An option that a conversion acts on.
#[verifier::opaque]
pub open spec fn is_acted_on(name: Seq<char>) -> bool {
    long_in(table(), name) matches Some(spec) && (spec.support is Implemented || spec.support
        is Extension)
}

/// An option that is answered before a conversion.
#[verifier::opaque]
pub open spec fn is_answered(name: Seq<char>) -> bool {
    long_in(table(), name) matches Some(spec) && spec.support is Meta
}

/// An option that is known and ignored, for now or for good.
#[verifier::opaque]
pub open spec fn is_ignored(name: Seq<char>) -> bool {
    long_in(table(), name) matches Some(spec) && (spec.support is Planned || spec.support
        is NoEquivalent)
}

proof fn lemma_listed(row: int)
    requires
        0 <= row < table().len(),
    ensures
        is_listed(
            table()[row].long@,
            table()[row].short,
            table()[row].arity_of() as int,
            table()[row].repeatable,
            table()[row].scope,
        ),
        table()[row].support is Implemented ==> is_acted_on(table()[row].long@),
        table()[row].support is Extension ==> is_acted_on(table()[row].long@),
        table()[row].support is Meta ==> is_answered(table()[row].long@),
        table()[row].support is Planned ==> is_ignored(table()[row].long@),
        table()[row].support is NoEquivalent ==> is_ignored(table()[row].long@),
{
    reveal(is_listed);
    reveal(is_acted_on);
    reveal(is_answered);
    reveal(is_ignored);
    law_lookup_long_finds_each_option(row);
}

proof fn lemma_general_listed(row: int)
    requires
        0 <= row < 30,
    ensures
        is_listed(
            general_table()[row].long@,
            general_table()[row].short,
            general_table()[row].arity_of() as int,
            general_table()[row].repeatable,
            general_table()[row].scope,
        ),
        general_table()[row].support is Implemented ==> is_acted_on(general_table()[row].long@),
        general_table()[row].support is Extension ==> is_acted_on(general_table()[row].long@),
        general_table()[row].support is Meta ==> is_answered(general_table()[row].long@),
        general_table()[row].support is Planned ==> is_ignored(general_table()[row].long@),
        general_table()[row].support is NoEquivalent ==> is_ignored(general_table()[row].long@),
{
    lemma_general_rows();
    lemma_outline_rows();
    lemma_page_rows();
    lemma_header_footer_rows();
    lemma_toc_rows();
    lemma_extension_rows();
    assert(table()[row + 0] == general_table()[row]);
    lemma_listed(row + 0);
}

proof fn lemma_outline_listed(row: int)
    requires
        0 <= row < 5,
    ensures
        is_listed(
            outline_table()[row].long@,
            outline_table()[row].short,
            outline_table()[row].arity_of() as int,
            outline_table()[row].repeatable,
            outline_table()[row].scope,
        ),
        outline_table()[row].support is Implemented ==> is_acted_on(outline_table()[row].long@),
        outline_table()[row].support is Extension ==> is_acted_on(outline_table()[row].long@),
        outline_table()[row].support is Meta ==> is_answered(outline_table()[row].long@),
        outline_table()[row].support is Planned ==> is_ignored(outline_table()[row].long@),
        outline_table()[row].support is NoEquivalent ==> is_ignored(outline_table()[row].long@),
{
    lemma_general_rows();
    lemma_outline_rows();
    lemma_page_rows();
    lemma_header_footer_rows();
    lemma_toc_rows();
    lemma_extension_rows();
    assert(table()[row + 30] == outline_table()[row]);
    lemma_listed(row + 30);
}

proof fn lemma_page_listed(row: int)
    requires
        0 <= row < 62,
    ensures
        is_listed(
            page_table()[row].long@,
            page_table()[row].short,
            page_table()[row].arity_of() as int,
            page_table()[row].repeatable,
            page_table()[row].scope,
        ),
        page_table()[row].support is Implemented ==> is_acted_on(page_table()[row].long@),
        page_table()[row].support is Extension ==> is_acted_on(page_table()[row].long@),
        page_table()[row].support is Meta ==> is_answered(page_table()[row].long@),
        page_table()[row].support is Planned ==> is_ignored(page_table()[row].long@),
        page_table()[row].support is NoEquivalent ==> is_ignored(page_table()[row].long@),
{
    lemma_general_rows();
    lemma_outline_rows();
    lemma_page_rows();
    lemma_header_footer_rows();
    lemma_toc_rows();
    lemma_extension_rows();
    assert(table()[row + 35] == page_table()[row]);
    lemma_listed(row + 35);
}

proof fn lemma_header_footer_listed(row: int)
    requires
        0 <= row < 19,
    ensures
        is_listed(
            header_footer_table()[row].long@,
            header_footer_table()[row].short,
            header_footer_table()[row].arity_of() as int,
            header_footer_table()[row].repeatable,
            header_footer_table()[row].scope,
        ),
        header_footer_table()[row].support is Implemented ==> is_acted_on(header_footer_table()[row].long@),
        header_footer_table()[row].support is Extension ==> is_acted_on(header_footer_table()[row].long@),
        header_footer_table()[row].support is Meta ==> is_answered(header_footer_table()[row].long@),
        header_footer_table()[row].support is Planned ==> is_ignored(header_footer_table()[row].long@),
        header_footer_table()[row].support is NoEquivalent ==> is_ignored(header_footer_table()[row].long@),
{
    lemma_general_rows();
    lemma_outline_rows();
    lemma_page_rows();
    lemma_header_footer_rows();
    lemma_toc_rows();
    lemma_extension_rows();
    assert(table()[row + 97] == header_footer_table()[row]);
    lemma_listed(row + 97);
}

proof fn lemma_toc_listed(row: int)
    requires
        0 <= row < 6,
    ensures
        is_listed(
            toc_table()[row].long@,
            toc_table()[row].short,
            toc_table()[row].arity_of() as int,
            toc_table()[row].repeatable,
            toc_table()[row].scope,
        ),
        toc_table()[row].support is Implemented ==> is_acted_on(toc_table()[row].long@),
        toc_table()[row].support is Extension ==> is_acted_on(toc_table()[row].long@),
        toc_table()[row].support is Meta ==> is_answered(toc_table()[row].long@),
        toc_table()[row].support is Planned ==> is_ignored(toc_table()[row].long@),
        toc_table()[row].support is NoEquivalent ==> is_ignored(toc_table()[row].long@),
{
    lemma_general_rows();
    lemma_outline_rows();
    lemma_page_rows();
    lemma_header_footer_rows();
    lemma_toc_rows();
    lemma_extension_rows();
    assert(table()[row + 116] == toc_table()[row]);
    lemma_listed(row + 116);
}

proof fn lemma_extension_listed(row: int)
    requires
        0 <= row < 6,
    ensures
        is_listed(
            extension_table()[row].long@,
            extension_table()[row].short,
            extension_table()[row].arity_of() as int,
            extension_table()[row].repeatable,
            extension_table()[row].scope,
        ),
        extension_table()[row].support is Implemented ==> is_acted_on(extension_table()[row].long@),
        extension_table()[row].support is Extension ==> is_acted_on(extension_table()[row].long@),
        extension_table()[row].support is Meta ==> is_answered(extension_table()[row].long@),
        extension_table()[row].support is Planned ==> is_ignored(extension_table()[row].long@),
        extension_table()[row].support is NoEquivalent ==> is_ignored(extension_table()[row].long@),
{
    lemma_general_rows();
    lemma_outline_rows();
    lemma_page_rows();
    lemma_header_footer_rows();
    lemma_toc_rows();
    lemma_extension_rows();
    assert(table()[row + 122] == extension_table()[row]);
    lemma_listed(row + 122);
}

/// The options of the run.
#[verifier::spinoff_prover]
#[verifier::rlimit(40)]
pub proof fn law_general_options_to_begin_with()
    ensures
        is_listed("collate"@, None, 0, false, Scope::Global),
        is_ignored("collate"@),
        is_listed("no-collate"@, None, 0, false, Scope::Global),
        is_ignored("no-collate"@),
        is_listed("cookie-jar"@, None, 1, false, Scope::Global),
        is_ignored("cookie-jar"@),
        is_listed("copies"@, None, 1, false, Scope::Global),
        is_ignored("copies"@),
        is_listed("dpi"@, Some('d'), 1, false, Scope::Global),
        is_ignored("dpi"@),
        is_listed("extended-help"@, Some('H'), 0, false, Scope::Global),
        is_answered("extended-help"@),
        is_listed("grayscale"@, Some('g'), 0, false, Scope::Global),
        is_ignored("grayscale"@),
        is_listed("help"@, Some('h'), 0, false, Scope::Global),
        is_answered("help"@),
        is_listed("htmldoc"@, None, 0, false, Scope::Global),
        is_answered("htmldoc"@),
        is_listed("image-dpi"@, None, 1, false, Scope::Global),
        is_ignored("image-dpi"@),
        is_listed("image-quality"@, None, 1, false, Scope::Global),
        is_ignored("image-quality"@),
        is_listed("license"@, None, 0, false, Scope::Global),
        is_answered("license"@),
        is_listed("log-level"@, None, 1, false, Scope::Global),
        is_acted_on("log-level"@),
        is_listed("lowquality"@, Some('l'), 0, false, Scope::Global),
        is_ignored("lowquality"@),
        is_listed("manpage"@, None, 0, false, Scope::Global),
        is_answered("manpage"@),
        is_listed("margin-bottom"@, Some('B'), 1, false, Scope::Global),
        is_acted_on("margin-bottom"@),
{
    reveal(general_table);
    lemma_general_listed(0);
    lemma_general_listed(1);
    lemma_general_listed(2);
    lemma_general_listed(3);
    lemma_general_listed(4);
    lemma_general_listed(5);
    lemma_general_listed(6);
    lemma_general_listed(7);
    lemma_general_listed(8);
    lemma_general_listed(9);
    lemma_general_listed(10);
    lemma_general_listed(11);
    lemma_general_listed(12);
    lemma_general_listed(13);
    lemma_general_listed(14);
    lemma_general_listed(15);
}

/// The options of the run.
#[verifier::spinoff_prover]
#[verifier::rlimit(40)]
pub proof fn law_general_options_at_the_end()
    ensures
        is_listed("margin-left"@, Some('L'), 1, false, Scope::Global),
        is_acted_on("margin-left"@),
        is_listed("margin-right"@, Some('R'), 1, false, Scope::Global),
        is_acted_on("margin-right"@),
        is_listed("margin-top"@, Some('T'), 1, false, Scope::Global),
        is_acted_on("margin-top"@),
        is_listed("orientation"@, Some('O'), 1, false, Scope::Global),
        is_acted_on("orientation"@),
        is_listed("page-height"@, None, 1, false, Scope::Global),
        is_acted_on("page-height"@),
        is_listed("page-size"@, Some('s'), 1, false, Scope::Global),
        is_acted_on("page-size"@),
        is_listed("page-width"@, None, 1, false, Scope::Global),
        is_acted_on("page-width"@),
        is_listed("no-pdf-compression"@, None, 0, false, Scope::Global),
        is_ignored("no-pdf-compression"@),
        is_listed("quiet"@, Some('q'), 0, false, Scope::Global),
        is_acted_on("quiet"@),
        is_listed("read-args-from-stdin"@, None, 0, false, Scope::Global),
        is_ignored("read-args-from-stdin"@),
        is_listed("readme"@, None, 0, false, Scope::Global),
        is_answered("readme"@),
        is_listed("title"@, None, 1, false, Scope::Global),
        is_acted_on("title"@),
        is_listed("use-xserver"@, None, 0, false, Scope::Global),
        is_ignored("use-xserver"@),
        is_listed("version"@, Some('V'), 0, false, Scope::Global),
        is_answered("version"@),
{
    reveal(general_table);
    lemma_general_listed(16);
    lemma_general_listed(17);
    lemma_general_listed(18);
    lemma_general_listed(19);
    lemma_general_listed(20);
    lemma_general_listed(21);
    lemma_general_listed(22);
    lemma_general_listed(23);
    lemma_general_listed(24);
    lemma_general_listed(25);
    lemma_general_listed(26);
    lemma_general_listed(27);
    lemma_general_listed(28);
    lemma_general_listed(29);
}

/// The options of the outline.
#[verifier::spinoff_prover]
#[verifier::rlimit(40)]
pub proof fn law_outline_options()
    ensures
        is_listed("dump-default-toc-xsl"@, None, 0, false, Scope::Global),
        is_ignored("dump-default-toc-xsl"@),
        is_listed("dump-outline"@, None, 1, false, Scope::Global),
        is_acted_on("dump-outline"@),
        is_listed("outline"@, None, 0, false, Scope::Global),
        is_acted_on("outline"@),
        is_listed("no-outline"@, None, 0, false, Scope::Global),
        is_acted_on("no-outline"@),
        is_listed("outline-depth"@, None, 1, false, Scope::Global),
        is_acted_on("outline-depth"@),
{
    reveal(outline_table);
    lemma_outline_listed(0);
    lemma_outline_listed(1);
    lemma_outline_listed(2);
    lemma_outline_listed(3);
    lemma_outline_listed(4);
}

/// The options of a document.
#[verifier::spinoff_prover]
#[verifier::rlimit(40)]
pub proof fn law_page_options_to_begin_with()
    ensures
        is_listed("allow"@, None, 1, true, Scope::Object),
        is_acted_on("allow"@),
        is_listed("background"@, None, 0, false, Scope::Object),
        is_acted_on("background"@),
        is_listed("no-background"@, None, 0, false, Scope::Object),
        is_acted_on("no-background"@),
        is_listed("bypass-proxy-for"@, None, 1, true, Scope::Object),
        is_acted_on("bypass-proxy-for"@),
        is_listed("cache-dir"@, None, 1, false, Scope::Object),
        is_acted_on("cache-dir"@),
        is_listed("checkbox-checked-svg"@, None, 1, false, Scope::Object),
        is_ignored("checkbox-checked-svg"@),
        is_listed("checkbox-svg"@, None, 1, false, Scope::Object),
        is_ignored("checkbox-svg"@),
        is_listed("cookie"@, None, 2, true, Scope::Object),
        is_acted_on("cookie"@),
        is_listed("custom-header"@, None, 2, true, Scope::Object),
        is_acted_on("custom-header"@),
        is_listed("custom-header-propagation"@, None, 0, false, Scope::Object),
        is_acted_on("custom-header-propagation"@),
        is_listed("no-custom-header-propagation"@, None, 0, false, Scope::Object),
        is_acted_on("no-custom-header-propagation"@),
        is_listed("debug-javascript"@, None, 0, false, Scope::Object),
        is_ignored("debug-javascript"@),
        is_listed("no-debug-javascript"@, None, 0, false, Scope::Object),
        is_ignored("no-debug-javascript"@),
        is_listed("default-header"@, None, 0, false, Scope::Object),
        is_acted_on("default-header"@),
        is_listed("encoding"@, None, 1, false, Scope::Object),
        is_acted_on("encoding"@),
        is_listed("disable-external-links"@, None, 0, false, Scope::Object),
        is_acted_on("disable-external-links"@),
{
    reveal(page_table);
    lemma_page_listed(0);
    lemma_page_listed(1);
    lemma_page_listed(2);
    lemma_page_listed(3);
    lemma_page_listed(4);
    lemma_page_listed(5);
    lemma_page_listed(6);
    lemma_page_listed(7);
    lemma_page_listed(8);
    lemma_page_listed(9);
    lemma_page_listed(10);
    lemma_page_listed(11);
    lemma_page_listed(12);
    lemma_page_listed(13);
    lemma_page_listed(14);
    lemma_page_listed(15);
}

/// The options of a document.
#[verifier::spinoff_prover]
#[verifier::rlimit(40)]
pub proof fn law_page_options_next()
    ensures
        is_listed("enable-external-links"@, None, 0, false, Scope::Object),
        is_acted_on("enable-external-links"@),
        is_listed("disable-forms"@, None, 0, false, Scope::Object),
        is_ignored("disable-forms"@),
        is_listed("enable-forms"@, None, 0, false, Scope::Object),
        is_ignored("enable-forms"@),
        is_listed("images"@, None, 0, false, Scope::Object),
        is_acted_on("images"@),
        is_listed("no-images"@, None, 0, false, Scope::Object),
        is_acted_on("no-images"@),
        is_listed("disable-internal-links"@, None, 0, false, Scope::Object),
        is_acted_on("disable-internal-links"@),
        is_listed("enable-internal-links"@, None, 0, false, Scope::Object),
        is_acted_on("enable-internal-links"@),
        is_listed("disable-javascript"@, Some('n'), 0, false, Scope::Object),
        is_acted_on("disable-javascript"@),
        is_listed("enable-javascript"@, None, 0, false, Scope::Object),
        is_acted_on("enable-javascript"@),
        is_listed("javascript-delay"@, None, 1, false, Scope::Object),
        is_acted_on("javascript-delay"@),
        is_listed("keep-relative-links"@, None, 0, false, Scope::Object),
        is_acted_on("keep-relative-links"@),
        is_listed("load-error-handling"@, None, 1, false, Scope::Object),
        is_acted_on("load-error-handling"@),
        is_listed("load-media-error-handling"@, None, 1, false, Scope::Object),
        is_acted_on("load-media-error-handling"@),
        is_listed("disable-local-file-access"@, None, 0, false, Scope::Object),
        is_acted_on("disable-local-file-access"@),
        is_listed("enable-local-file-access"@, None, 0, false, Scope::Object),
        is_acted_on("enable-local-file-access"@),
        is_listed("minimum-font-size"@, None, 1, false, Scope::Object),
        is_acted_on("minimum-font-size"@),
{
    reveal(page_table);
    lemma_page_listed(16);
    lemma_page_listed(17);
    lemma_page_listed(18);
    lemma_page_listed(19);
    lemma_page_listed(20);
    lemma_page_listed(21);
    lemma_page_listed(22);
    lemma_page_listed(23);
    lemma_page_listed(24);
    lemma_page_listed(25);
    lemma_page_listed(26);
    lemma_page_listed(27);
    lemma_page_listed(28);
    lemma_page_listed(29);
    lemma_page_listed(30);
    lemma_page_listed(31);
}

/// The options of a document.
#[verifier::spinoff_prover]
#[verifier::rlimit(40)]
pub proof fn law_page_options_further_on()
    ensures
        is_listed("exclude-from-outline"@, None, 0, false, Scope::Object),
        is_acted_on("exclude-from-outline"@),
        is_listed("include-in-outline"@, None, 0, false, Scope::Object),
        is_acted_on("include-in-outline"@),
        is_listed("page-offset"@, None, 1, false, Scope::Object),
        is_acted_on("page-offset"@),
        is_listed("password"@, None, 1, false, Scope::Object),
        is_acted_on("password"@),
        is_listed("disable-plugins"@, None, 0, false, Scope::Object),
        is_ignored("disable-plugins"@),
        is_listed("enable-plugins"@, None, 0, false, Scope::Object),
        is_ignored("enable-plugins"@),
        is_listed("post"@, None, 2, true, Scope::Object),
        is_ignored("post"@),
        is_listed("post-file"@, None, 2, true, Scope::Object),
        is_ignored("post-file"@),
        is_listed("print-media-type"@, None, 0, false, Scope::Object),
        is_acted_on("print-media-type"@),
        is_listed("no-print-media-type"@, None, 0, false, Scope::Object),
        is_acted_on("no-print-media-type"@),
        is_listed("proxy"@, Some('p'), 1, false, Scope::Object),
        is_acted_on("proxy"@),
        is_listed("proxy-hostname-lookup"@, None, 0, false, Scope::Object),
        is_ignored("proxy-hostname-lookup"@),
        is_listed("radiobutton-checked-svg"@, None, 1, false, Scope::Object),
        is_ignored("radiobutton-checked-svg"@),
        is_listed("radiobutton-svg"@, None, 1, false, Scope::Object),
        is_ignored("radiobutton-svg"@),
        is_listed("resolve-relative-links"@, None, 0, false, Scope::Object),
        is_acted_on("resolve-relative-links"@),
        is_listed("run-script"@, None, 1, true, Scope::Object),
        is_acted_on("run-script"@),
{
    reveal(page_table);
    lemma_page_listed(32);
    lemma_page_listed(33);
    lemma_page_listed(34);
    lemma_page_listed(35);
    lemma_page_listed(36);
    lemma_page_listed(37);
    lemma_page_listed(38);
    lemma_page_listed(39);
    lemma_page_listed(40);
    lemma_page_listed(41);
    lemma_page_listed(42);
    lemma_page_listed(43);
    lemma_page_listed(44);
    lemma_page_listed(45);
    lemma_page_listed(46);
    lemma_page_listed(47);
}

/// The options of a document.
#[verifier::spinoff_prover]
#[verifier::rlimit(40)]
pub proof fn law_page_options_at_the_end()
    ensures
        is_listed("disable-smart-shrinking"@, None, 0, false, Scope::Object),
        is_ignored("disable-smart-shrinking"@),
        is_listed("enable-smart-shrinking"@, None, 0, false, Scope::Object),
        is_ignored("enable-smart-shrinking"@),
        is_listed("ssl-crt-path"@, None, 1, false, Scope::Object),
        is_ignored("ssl-crt-path"@),
        is_listed("ssl-key-password"@, None, 1, false, Scope::Object),
        is_ignored("ssl-key-password"@),
        is_listed("ssl-key-path"@, None, 1, false, Scope::Object),
        is_ignored("ssl-key-path"@),
        is_listed("stop-slow-scripts"@, None, 0, false, Scope::Object),
        is_ignored("stop-slow-scripts"@),
        is_listed("no-stop-slow-scripts"@, None, 0, false, Scope::Object),
        is_acted_on("no-stop-slow-scripts"@),
        is_listed("disable-toc-back-links"@, None, 0, false, Scope::Object),
        is_acted_on("disable-toc-back-links"@),
        is_listed("enable-toc-back-links"@, None, 0, false, Scope::Object),
        is_acted_on("enable-toc-back-links"@),
        is_listed("user-style-sheet"@, None, 1, false, Scope::Object),
        is_acted_on("user-style-sheet"@),
        is_listed("username"@, None, 1, false, Scope::Object),
        is_acted_on("username"@),
        is_listed("viewport-size"@, None, 1, false, Scope::Object),
        is_acted_on("viewport-size"@),
        is_listed("window-status"@, None, 1, false, Scope::Object),
        is_acted_on("window-status"@),
        is_listed("zoom"@, None, 1, false, Scope::Object),
        is_acted_on("zoom"@),
{
    reveal(page_table);
    lemma_page_listed(48);
    lemma_page_listed(49);
    lemma_page_listed(50);
    lemma_page_listed(51);
    lemma_page_listed(52);
    lemma_page_listed(53);
    lemma_page_listed(54);
    lemma_page_listed(55);
    lemma_page_listed(56);
    lemma_page_listed(57);
    lemma_page_listed(58);
    lemma_page_listed(59);
    lemma_page_listed(60);
    lemma_page_listed(61);
}

/// The options of the two bands.
#[verifier::spinoff_prover]
#[verifier::rlimit(40)]
pub proof fn law_header_footer_options_to_begin_with()
    ensures
        is_listed("footer-center"@, None, 1, false, Scope::Object),
        is_acted_on("footer-center"@),
        is_listed("footer-font-name"@, None, 1, false, Scope::Object),
        is_acted_on("footer-font-name"@),
        is_listed("footer-font-size"@, None, 1, false, Scope::Object),
        is_acted_on("footer-font-size"@),
        is_listed("footer-html"@, None, 1, false, Scope::Object),
        is_acted_on("footer-html"@),
        is_listed("footer-left"@, None, 1, false, Scope::Object),
        is_acted_on("footer-left"@),
        is_listed("footer-line"@, None, 0, false, Scope::Object),
        is_acted_on("footer-line"@),
        is_listed("no-footer-line"@, None, 0, false, Scope::Object),
        is_acted_on("no-footer-line"@),
        is_listed("footer-right"@, None, 1, false, Scope::Object),
        is_acted_on("footer-right"@),
        is_listed("footer-spacing"@, None, 1, false, Scope::Object),
        is_acted_on("footer-spacing"@),
        is_listed("header-center"@, None, 1, false, Scope::Object),
        is_acted_on("header-center"@),
        is_listed("header-font-name"@, None, 1, false, Scope::Object),
        is_acted_on("header-font-name"@),
        is_listed("header-font-size"@, None, 1, false, Scope::Object),
        is_acted_on("header-font-size"@),
        is_listed("header-html"@, None, 1, false, Scope::Object),
        is_acted_on("header-html"@),
        is_listed("header-left"@, None, 1, false, Scope::Object),
        is_acted_on("header-left"@),
        is_listed("header-line"@, None, 0, false, Scope::Object),
        is_acted_on("header-line"@),
        is_listed("no-header-line"@, None, 0, false, Scope::Object),
        is_acted_on("no-header-line"@),
{
    reveal(header_footer_table);
    lemma_header_footer_listed(0);
    lemma_header_footer_listed(1);
    lemma_header_footer_listed(2);
    lemma_header_footer_listed(3);
    lemma_header_footer_listed(4);
    lemma_header_footer_listed(5);
    lemma_header_footer_listed(6);
    lemma_header_footer_listed(7);
    lemma_header_footer_listed(8);
    lemma_header_footer_listed(9);
    lemma_header_footer_listed(10);
    lemma_header_footer_listed(11);
    lemma_header_footer_listed(12);
    lemma_header_footer_listed(13);
    lemma_header_footer_listed(14);
    lemma_header_footer_listed(15);
}

/// The options of the two bands.
#[verifier::spinoff_prover]
#[verifier::rlimit(40)]
pub proof fn law_header_footer_options_at_the_end()
    ensures
        is_listed("header-right"@, None, 1, false, Scope::Object),
        is_acted_on("header-right"@),
        is_listed("header-spacing"@, None, 1, false, Scope::Object),
        is_acted_on("header-spacing"@),
        is_listed("replace"@, None, 2, true, Scope::Object),
        is_acted_on("replace"@),
{
    reveal(header_footer_table);
    lemma_header_footer_listed(16);
    lemma_header_footer_listed(17);
    lemma_header_footer_listed(18);
}

/// The options of a table of contents.
#[verifier::spinoff_prover]
#[verifier::rlimit(40)]
pub proof fn law_toc_options()
    ensures
        is_listed("disable-dotted-lines"@, None, 0, false, Scope::Toc),
        is_acted_on("disable-dotted-lines"@),
        is_listed("toc-header-text"@, None, 1, false, Scope::Toc),
        is_acted_on("toc-header-text"@),
        is_listed("toc-level-indentation"@, None, 1, false, Scope::Toc),
        is_acted_on("toc-level-indentation"@),
        is_listed("disable-toc-links"@, None, 0, false, Scope::Toc),
        is_acted_on("disable-toc-links"@),
        is_listed("toc-text-size-shrink"@, None, 1, false, Scope::Toc),
        is_acted_on("toc-text-size-shrink"@),
        is_listed("xsl-style-sheet"@, None, 1, false, Scope::Toc),
        is_ignored("xsl-style-sheet"@),
{
    reveal(toc_table);
    lemma_toc_listed(0);
    lemma_toc_listed(1);
    lemma_toc_listed(2);
    lemma_toc_listed(3);
    lemma_toc_listed(4);
    lemma_toc_listed(5);
}

/// The options of this program alone.
#[verifier::spinoff_prover]
#[verifier::rlimit(40)]
pub proof fn law_extension_options()
    ensures
        is_listed("dump-chromium"@, None, 0, false, Scope::Global),
        is_answered("dump-chromium"@),
        is_listed("chromium-path"@, None, 1, false, Scope::Global),
        is_acted_on("chromium-path"@),
        is_listed("chromium-arg"@, None, 1, true, Scope::Global),
        is_acted_on("chromium-arg"@),
        is_listed("no-sandbox"@, None, 0, false, Scope::Global),
        is_acted_on("no-sandbox"@),
        is_listed("timeout"@, None, 1, false, Scope::Global),
        is_acted_on("timeout"@),
        is_listed("dump-parse"@, None, 0, false, Scope::Global),
        is_acted_on("dump-parse"@),
{
    reveal(extension_table);
    lemma_extension_listed(0);
    lemma_extension_listed(1);
    lemma_extension_listed(2);
    lemma_extension_listed(3);
    lemma_extension_listed(4);
    lemma_extension_listed(5);
}

} // verus!
