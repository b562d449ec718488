//! What a command line is answered with.

use crate::apply::{applied, apply, ApplyErrorView};
use crate::document::{Input, InputView, Output, OutputView};
use crate::encoding::{quoted, quoted_text};
use crate::locate::{origin_text, Executable, ExecutableView, Flavour, Origin};
use crate::settings::{copy_maybe, LogLevel, Settings, SettingsView};
use crate::table::{headings, sections, warning_of, OptionSpec, Section, Support, Values};
use crate::text::{
    chars_of, contains_text, decimal, maybe, padded, push_number, push_padded, same, texts,
};
use crate::tokenizer::{
    asked_for, copy_texts, every_option, find_meta_option, in_written_order, objects_of,
    occurrences_of, parse_error_message, tokenize, tokenized, Object, ObjectKind, ObjectKindView,
    ObjectView, Occurrence, OccurrenceView, Tokenized, TokenizedView,
};
use crate::{PROGRAM, VERSION};
use vstd::prelude::*;

verus! {

/// Where the program comes from.
pub const REPOSITORY: &'static str = "https://github.com/slashfan/rchtmltopdf";

/// Where the help of an option begins.
pub const HELP_COLUMN: usize = 38;

/// How the program is used.
pub open spec fn usage_of() -> Seq<char> {
    PROGRAM@ + " "@ + VERSION@ + "\n\nUsage:\n  "@ + PROGRAM@
        + " [GLOBAL OPTION]... [OBJECT]... <output file>\n\nRun `"@ + PROGRAM@
        + " --help` for the common options,\nor `"@ + PROGRAM@
        + " --extended-help` for all of them.\n"@
}

/// How the program is used.
pub fn usage() -> (text: String)
    ensures
        text@ == usage_of(),
{
    let mut text = PROGRAM.to_owned();
    text.push_str(" ");
    text.push_str(VERSION);
    text.push_str("\n\nUsage:\n  ");
    text.push_str(PROGRAM);
    text.push_str(" [GLOBAL OPTION]... [OBJECT]... <output file>\n\nRun `");
    text.push_str(PROGRAM);
    text.push_str(" --help` for the common options,\nor `");
    text.push_str(PROGRAM);
    text.push_str(" --extended-help` for all of them.\n");
    text
}

/// What the program does.
pub const DESCRIPTION: &'static str = "\nDescription:\n  Converts one or more HTML documents into a PDF, driving a headless\n  Chromium. The command line follows wkhtmltopdf; the rendering does not.\n";

/// Whether the help shows an option. The short help leaves out what does
/// nothing.
pub open spec fn is_shown(spec: OptionSpec, extended: bool) -> bool {
    extended || spec.support is Implemented || spec.support is Extension || spec.support is Meta
}

/// The names of an option and of its values.
pub open spec fn option_left(spec: OptionSpec) -> Seq<char> {
    (match spec.short {
        Some(letter) => "  -"@ + seq![letter] + ", --"@ + spec.long@,
        None => "      --"@ + spec.long@,
    }) + match spec.value_names {
        Values::Nothing => ""@,
        Values::One(name) => " <"@ + name@ + ">"@,
        Values::Two(first, second) => " <"@ + first@ + "> <"@ + second@ + ">"@,
    }
}

/// What is noted beside an option that does nothing.
pub open spec fn option_note(support: Support) -> Seq<char> {
    match support {
        Support::Planned(_) => " [not implemented yet]"@,
        Support::NoEquivalent(_) => " [accepted, ignored]"@,
        _ => ""@,
    }
}

/// The line of an option, or two where its names are too long for one.
pub open spec fn option_help(spec: OptionSpec) -> Seq<char> {
    let left = option_left(spec);
    (if left.len() >= HELP_COLUMN {
        left + "\n"@ + padded(""@, HELP_COLUMN as int)
    } else {
        padded(left, HELP_COLUMN as int)
    }) + spec.help@ + option_note(spec.support) + "\n"@
}

/// The lines of the options that are shown.
pub open spec fn option_lines(options: Seq<OptionSpec>, extended: bool) -> Seq<char>
    decreases options.len(),
{
    if options.len() == 0 {
        Seq::empty()
    } else {
        option_lines(options.drop_last(), extended) + if is_shown(options.last(), extended) {
            option_help(options.last())
        } else {
            Seq::empty()
        }
    }
}

/// Whether any option is shown.
pub open spec fn any_shown(options: Seq<OptionSpec>, extended: bool) -> bool {
    exists|i: int| 0 <= i < options.len() && is_shown(#[trigger] options[i], extended)
}

/// A section of the help. One without an option to show is left out.
pub open spec fn section_help(title: Seq<char>, options: Seq<OptionSpec>, extended: bool) -> Seq<
    char,
> {
    if any_shown(options, extended) {
        "\n"@ + title + ":\n"@ + option_lines(options, extended)
    } else {
        Seq::empty()
    }
}

/// The sections of the help.
pub open spec fn sections_help(
    list: Seq<(&'static str, Seq<OptionSpec>)>,
    extended: bool,
) -> Seq<char>
    decreases list.len(),
{
    if list.len() == 0 {
        Seq::empty()
    } else {
        sections_help(list.drop_last(), extended) + section_help(
            list.last().0@,
            list.last().1,
            extended,
        )
    }
}

/// The whole help.
pub open spec fn help_of(extended: bool) -> Seq<char> {
    usage_of() + DESCRIPTION@ + sections_help(headings(), extended)
}

fn shows(spec: &OptionSpec, extended: bool) -> (yes: bool)
    ensures
        yes == is_shown(*spec, extended),
{
    extended || matches!(spec.support, Support::Implemented | Support::Extension | Support::Meta)
}

fn left_of(spec: &OptionSpec) -> (left: String)
    ensures
        left@ == option_left(*spec),
{
    let mut left = match spec.short {
        Some(letter) => {
            let mut left = "  -".to_owned();
            left.push(letter);
            assert(left@ =~= "  -"@ + seq![letter]);
            left.push_str(", --");
            left.push_str(spec.long);
            left
        },
        None => {
            let mut left = "      --".to_owned();
            left.push_str(spec.long);
            left
        },
    };
    let ghost before = left@;
    match spec.value_names {
        Values::Nothing => {
            left.push_str("");
        },
        Values::One(name) => {
            left.push_str(" <");
            left.push_str(name);
            left.push_str(">");
            assert(left@ =~= before + (" <"@ + name@ + ">"@));
        },
        Values::Two(first, second) => {
            left.push_str(" <");
            left.push_str(first);
            left.push_str("> <");
            left.push_str(second);
            left.push_str(">");
            assert(left@ =~= before + (" <"@ + first@ + "> <"@ + second@ + ">"@));
        },
    }
    left
}

fn push_option(out: &mut String, spec: &OptionSpec)
    ensures
        final(out)@ == old(out)@ + option_help(*spec),
{
    let ghost start = out@;
    let left = left_of(spec);
    let size: usize = chars_of(&left).len();
    if size >= HELP_COLUMN {
        out.push_str(&left);
        out.push_str("\n");
        push_padded(out, "", HELP_COLUMN);
        assert(out@ =~= start + (left@ + "\n"@ + padded(""@, HELP_COLUMN as int)));
    } else {
        push_padded(out, &left, HELP_COLUMN);
    }
    out.push_str(spec.help);
    out.push_str(
        match spec.support {
            Support::Planned(_) => " [not implemented yet]",
            Support::NoEquivalent(_) => " [accepted, ignored]",
            _ => "",
        },
    );
    out.push_str("\n");
    assert(out@ =~= start + option_help(*spec));
}

fn push_section(out: &mut String, section: &Section, extended: bool)
    ensures
        final(out)@ == old(out)@ + section_help(section.title@, section.options@, extended),
{
    let ghost start = out@;
    let ghost all = section.options@;
    let size: usize = section.options.len();
    let mut lines = String::new();
    let mut any = false;
    let mut at: usize = 0;
    assert(all.take(0) =~= Seq::empty());
    while at < size
        invariant
            at <= size == section.options@.len(),
            all == section.options@,
            lines@ == option_lines(all.take(at as int), extended),
            any == exists|i: int| 0 <= i < at && is_shown(#[trigger] all[i], extended),
        decreases size - at,
    {
        assert(all.take(at + 1).drop_last() =~= all.take(at as int));
        assert(all.take(at + 1).last() == all[at as int]);
        let ghost before = lines@;
        if shows(&section.options[at], extended) {
            push_option(&mut lines, &section.options[at]);
            any = true;
            assert(is_shown(all[at as int], extended));
        } else {
            assert(lines@ =~= before + Seq::<char>::empty());
        }
        at = at + 1;
    }
    assert(all.take(at as int) =~= all);
    if any {
        out.push_str("\n");
        out.push_str(section.title);
        out.push_str(":\n");
        out.push_str(&lines);
    }
    assert(out@ =~= start + section_help(section.title@, section.options@, extended));
}

/// The whole help.
pub fn help(extended: bool) -> (text: String)
    ensures
        text@ == help_of(extended),
{
    let mut text = usage();
    text.push_str(DESCRIPTION);
    let list = sections();
    let ghost start = text@;
    let ghost all = list@.map_values(|s: Section| (s.title, s.options@));
    let size: usize = list.len();
    let mut at: usize = 0;
    assert(all.take(0) =~= Seq::empty());
    assert(text@ =~= start + sections_help(all.take(0), extended));
    while at < size
        invariant
            at <= size == list@.len(),
            all == list@.map_values(|s: Section| (s.title, s.options@)),
            text@ == start + sections_help(all.take(at as int), extended),
        decreases size - at,
    {
        let ghost before = sections_help(all.take(at as int), extended);
        assert(all.take(at + 1).drop_last() =~= all.take(at as int));
        assert(all.take(at + 1).last() == (list@[at as int].title, list@[at as int].options@));
        push_section(&mut text, &list[at], extended);
        assert(text@ =~= start + (before + section_help(
            list@[at as int].title@,
            list@[at as int].options@,
            extended,
        )));
        at = at + 1;
    }
    assert(all.take(at as int) =~= all);
    text
}

/// What an option is answered with instead of a conversion.
#[derive(Debug, PartialEq, Eq)]
pub enum MetaAnswer {
    /// This text, and success.
    Text(String),
    /// A report on the browser.
    Chromium,
    /// That nothing is known of it, and failure.
    Unknown(String),
}

/// A [`MetaAnswer`] by the characters it holds.
pub enum MetaAnswerView {
    Text(Seq<char>),
    Chromium,
    Unknown(Seq<char>),
}

impl View for MetaAnswer {
    type V = MetaAnswerView;

    open spec fn view(&self) -> MetaAnswerView {
        match *self {
            MetaAnswer::Text(text) => MetaAnswerView::Text(text@),
            MetaAnswer::Chromium => MetaAnswerView::Chromium,
            MetaAnswer::Unknown(text) => MetaAnswerView::Unknown(text@),
        }
    }
}

/// The terms that the program comes under.
pub const TERMS: &'static str = "\n\nLicensed under either of Apache License, Version 2.0 or the MIT license,\nat your option. SPDX-License-Identifier: MIT OR Apache-2.0\n\n";

/// What an option is answered with instead of a conversion.
pub open spec fn answer_of(long: Seq<char>) -> MetaAnswerView {
    if long == "help"@ {
        MetaAnswerView::Text(help_of(false))
    } else if long == "extended-help"@ {
        MetaAnswerView::Text(help_of(true))
    } else if long == "version"@ {
        MetaAnswerView::Text(
            PROGRAM@ + " "@ + VERSION@
                + "\nwkhtmltopdf-compatible CLI, modern Chromium rendering\n"@,
        )
    } else if long == "license"@ {
        MetaAnswerView::Text(PROGRAM@ + " "@ + VERSION@ + TERMS@ + REPOSITORY@ + "\n"@)
    } else if long == "dump-chromium"@ {
        MetaAnswerView::Chromium
    } else {
        MetaAnswerView::Unknown(
            PROGRAM@ + ": --"@ + long + " is not implemented; see "@ + REPOSITORY@,
        )
    }
}

/// What an option is answered with instead of a conversion.
pub fn meta_answer(spec: &OptionSpec) -> (answer: MetaAnswer)
    ensures
        answer@ == answer_of(spec.long@),
{
    let long = spec.long;
    if same(long, "help") {
        MetaAnswer::Text(help(false))
    } else if same(long, "extended-help") {
        MetaAnswer::Text(help(true))
    } else if same(long, "version") {
        let mut text = PROGRAM.to_owned();
        text.push_str(" ");
        text.push_str(VERSION);
        text.push_str("\nwkhtmltopdf-compatible CLI, modern Chromium rendering\n");
        MetaAnswer::Text(text)
    } else if same(long, "license") {
        let mut text = PROGRAM.to_owned();
        text.push_str(" ");
        text.push_str(VERSION);
        text.push_str(TERMS);
        text.push_str(REPOSITORY);
        text.push_str("\n");
        MetaAnswer::Text(text)
    } else if same(long, "dump-chromium") {
        MetaAnswer::Chromium
    } else {
        let mut text = PROGRAM.to_owned();
        text.push_str(": --");
        text.push_str(long);
        text.push_str(" is not implemented; see ");
        text.push_str(REPOSITORY);
        MetaAnswer::Unknown(text)
    }
}

/// The values of an option between quotes, each behind a space.
pub open spec fn quoted_values(values: Seq<Seq<char>>) -> Seq<char>
    decreases values.len(),
{
    if values.len() == 0 {
        Seq::empty()
    } else {
        quoted_values(values.drop_last()) + " "@ + quoted_text(values.last())
    }
}

/// A line for each option.
pub open spec fn occurrence_lines(list: Seq<OccurrenceView>) -> Seq<char>
    decreases list.len(),
{
    if list.len() == 0 {
        Seq::empty()
    } else {
        occurrence_lines(list.drop_last()) + "    "@ + list.last().as_written + quoted_values(
            list.last().values,
        ) + "\n"@
    }
}

/// How an input is described.
pub open spec fn input_text(input: InputView) -> Seq<char> {
    match input {
        InputView::Stdin => "<stdin>"@,
        InputView::Url(url) => "url "@ + url,
        InputView::Path(path) => "file "@ + path,
    }
}

/// How an object is described.
pub open spec fn kind_text(kind: ObjectKindView) -> Seq<char> {
    match kind {
        ObjectKindView::Page(input) => "page "@ + input_text(input),
        ObjectKindView::Cover(input) => "cover "@ + input_text(input),
        ObjectKindView::Toc => "toc"@,
    }
}

/// The objects of a command line, each with its options.
pub open spec fn object_lines(objects: Seq<ObjectView>) -> Seq<char>
    decreases objects.len(),
{
    if objects.len() == 0 {
        Seq::empty()
    } else {
        object_lines(objects.drop_last()) + ("object "@ + decimal(objects.len() - 1) + ": "@
            + kind_text(objects.last().kind) + "\n"@) + occurrence_lines(objects.last().options)
    }
}

/// How a command line was understood.
pub open spec fn parse_text(parsed: TokenizedView) -> Seq<char> {
    "global options:\n"@ + occurrence_lines(parsed.globals) + "object option defaults:\n"@
        + occurrence_lines(parsed.defaults) + object_lines(parsed.objects) + (match parsed.output {
        OutputView::Stdout => "output: <stdout>\n"@,
        OutputView::Path(path) => "output: "@ + path + "\n"@,
    })
}

fn push_values(out: &mut String, values: &Vec<String>)
    ensures
        final(out)@ == old(out)@ + quoted_values(texts(values@)),
{
    let ghost start = out@;
    let ghost all = texts(values@);
    let size: usize = values.len();
    let mut at: usize = 0;
    assert(all.take(0) =~= Seq::empty());
    assert(out@ =~= start + quoted_values(all.take(0)));
    while at < size
        invariant
            at <= size == values@.len(),
            all == texts(values@),
            out@ == start + quoted_values(all.take(at as int)),
        decreases size - at,
    {
        let ghost before = quoted_values(all.take(at as int));
        assert(all.take(at + 1).drop_last() =~= all.take(at as int));
        assert(all.take(at + 1).last() == values@[at as int]@);
        out.push_str(" ");
        out.push_str(&quoted(&values[at]));
        assert(out@ =~= start + (before + " "@ + quoted_text(values@[at as int]@)));
        at = at + 1;
    }
    assert(all.take(at as int) =~= all);
}

fn push_occurrences(out: &mut String, list: &Vec<Occurrence>)
    ensures
        final(out)@ == old(out)@ + occurrence_lines(occurrences_of(list@)),
{
    let ghost start = out@;
    let ghost all = occurrences_of(list@);
    let size: usize = list.len();
    let mut at: usize = 0;
    assert(all.take(0) =~= Seq::empty());
    assert(out@ =~= start + occurrence_lines(all.take(0)));
    while at < size
        invariant
            at <= size == list@.len(),
            all == occurrences_of(list@),
            out@ == start + occurrence_lines(all.take(at as int)),
        decreases size - at,
    {
        let ghost before = occurrence_lines(all.take(at as int));
        assert(all.take(at + 1).drop_last() =~= all.take(at as int));
        assert(all.take(at + 1).last() == list@[at as int]@);
        let occurrence = &list[at];
        out.push_str("    ");
        out.push_str(&occurrence.as_written);
        push_values(out, &occurrence.values);
        out.push_str("\n");
        assert(out@ =~= start + (before + "    "@ + occurrence.as_written@ + quoted_values(
            texts(occurrence.values@),
        ) + "\n"@));
        at = at + 1;
    }
    assert(all.take(at as int) =~= all);
}

/// How an input is described.
pub fn describe_input(input: &Input) -> (text: String)
    ensures
        text@ == input_text(input@),
{
    match input {
        Input::Stdin => "<stdin>".to_owned(),
        Input::Url(url) => {
            let mut text = "url ".to_owned();
            text.push_str(url);
            text
        },
        Input::Path(path) => {
            let mut text = "file ".to_owned();
            text.push_str(path);
            text
        },
    }
}

fn describe_kind(kind: &ObjectKind) -> (text: String)
    ensures
        text@ == kind_text(kind@),
{
    match kind {
        ObjectKind::Page(input) => {
            let mut text = "page ".to_owned();
            text.push_str(&describe_input(input));
            text
        },
        ObjectKind::Cover(input) => {
            let mut text = "cover ".to_owned();
            text.push_str(&describe_input(input));
            text
        },
        ObjectKind::Toc => "toc".to_owned(),
    }
}

fn push_objects(out: &mut String, objects: &Vec<Object>)
    ensures
        final(out)@ == old(out)@ + object_lines(objects_of(objects@)),
{
    let ghost start = out@;
    let ghost all = objects_of(objects@);
    let size: usize = objects.len();
    let mut at: usize = 0;
    assert(all.take(0) =~= Seq::empty());
    assert(out@ =~= start + object_lines(all.take(0)));
    while at < size
        invariant
            at <= size == objects@.len(),
            all == objects_of(objects@),
            out@ == start + object_lines(all.take(at as int)),
        decreases size - at,
    {
        let ghost before = object_lines(all.take(at as int));
        assert(all.take(at + 1).drop_last() =~= all.take(at as int));
        assert(all.take(at + 1).last() == objects@[at as int]@);
        let object = &objects[at];
        out.push_str("object ");
        push_number(out, at as u64);
        out.push_str(": ");
        out.push_str(&describe_kind(&object.kind));
        out.push_str("\n");
        let ghost own = "object "@ + decimal(at as int) + ": "@ + kind_text(object@.kind) + "\n"@;
        assert(out@ =~= start + (before + own));
        push_occurrences(out, &object.options);
        assert(out@ =~= start + (before + own + occurrence_lines(object@.options)));
        at = at + 1;
    }
    assert(all.take(at as int) =~= all);
}

/// How a command line was understood.
pub fn describe_parse(parsed: &Tokenized) -> (text: String)
    ensures
        text@ == parse_text(parsed@),
{
    let mut text = "global options:\n".to_owned();
    push_occurrences(&mut text, &parsed.globals);
    text.push_str("object option defaults:\n");
    push_occurrences(&mut text, &parsed.defaults);
    push_objects(&mut text, &parsed.objects);
    let ghost before = text@;
    match &parsed.output {
        Output::Stdout => {
            text.push_str("output: <stdout>\n");
        },
        Output::Path(path) => {
            text.push_str("output: ");
            text.push_str(path);
            text.push_str("\n");
            assert(text@ =~= before + ("output: "@ + path@ + "\n"@));
        },
    }
    text
}

/// The warnings of the options of a command line, and the options that they are
/// about. An option is warned about once, however it is written.
pub open spec fn warnings_of(list: Seq<OccurrenceView>) -> (Seq<Seq<char>>, Seq<Seq<char>>)
    decreases list.len(),
{
    if list.len() == 0 {
        (Seq::empty(), Seq::empty())
    } else {
        let (lines, named) = warnings_of(list.drop_last());
        let last = list.last();
        match warning_of(last.spec.support, last.as_written) {
            Some(warning) => if named.contains(last.spec.long@) {
                (lines, named)
            } else {
                (lines.push(warning), named.push(last.spec.long@))
            },
            None => (lines, named),
        }
    }
}

/// The warnings of the options of a command line.
pub fn option_warnings(parsed: &Tokenized) -> (lines: Vec<String>)
    ensures
        texts(lines@) == warnings_of(in_written_order(every_option(parsed@))).0,
{
    let list = parsed.occurrences();
    let ghost all = occurrences_of(list@);
    let mut lines: Vec<String> = Vec::new();
    let mut named: Vec<String> = Vec::new();
    let size: usize = list.len();
    let mut at: usize = 0;
    assert(all.take(0) =~= Seq::empty());
    assert(texts(lines@) =~= Seq::empty());
    assert(texts(named@) =~= Seq::empty());
    while at < size
        invariant
            at <= size == list@.len(),
            all == occurrences_of(list@),
            (texts(lines@), texts(named@)) == warnings_of(all.take(at as int)),
        decreases size - at,
    {
        assert(all.take(at + 1).drop_last() =~= all.take(at as int));
        assert(all.take(at + 1).last() == list@[at as int]@);
        let occurrence = &list[at];
        if !contains_text(&named, occurrence.spec.long) {
            if let Some(warning) = occurrence.spec.support.warning(&occurrence.as_written) {
                let ghost (said, about) = (texts(lines@), texts(named@));
                let ghost added = warning@;
                lines.push(warning);
                named.push(occurrence.spec.long.to_owned());
                assert(texts(lines@) =~= said.push(added));
                assert(texts(named@) =~= about.push(occurrence.spec.long@));
            }
        }
        at = at + 1;
    }
    assert(all.take(at as int) =~= all);
    lines
}

/// Whether an option is among others.
pub open spec fn has_option(list: Seq<OccurrenceView>, long: Seq<char>) -> bool {
    exists|i: int| 0 <= i < list.len() && (#[trigger] list[i]).spec.long@ == long
}

fn asks_for(list: &Vec<Occurrence>, long: &str) -> (yes: bool)
    ensures
        yes == has_option(occurrences_of(list@), long@),
{
    let ghost all = occurrences_of(list@);
    let mut at: usize = 0;
    while at < list.len()
        invariant
            at <= list@.len(),
            all == occurrences_of(list@),
            forall|i: int| 0 <= i < at ==> (#[trigger] all[i]).spec.long@ != long@,
        decreases list@.len() - at,
    {
        assert(all[at as int] == list@[at as int]@);
        if same(list[at].spec.long, long) {
            return true;
        }
        at = at + 1;
    }
    false
}

/// What a command line leads to.
#[derive(Debug)]
pub enum Run {
    /// There is none: say how the program is used, and fail.
    Usage,
    /// An answer instead of a conversion.
    Meta(MetaAnswer),
    /// It is not understood.
    Refused { warnings: Vec<String>, reason: String },
    /// It is shown how it was understood.
    Shown { warnings: Vec<String>, text: String },
    /// It is converted.
    Convert { warnings: Vec<String>, settings: Settings },
}

/// A [`Run`] by the characters it holds.
pub enum RunView {
    Usage,
    Meta(MetaAnswerView),
    Refused { warnings: Seq<Seq<char>>, reason: Seq<char> },
    Shown { warnings: Seq<Seq<char>>, text: Seq<char> },
    Convert { warnings: Seq<Seq<char>>, settings: SettingsView },
}

impl View for Run {
    type V = RunView;

    open spec fn view(&self) -> RunView {
        match *self {
            Run::Usage => RunView::Usage,
            Run::Meta(answer) => RunView::Meta(answer@),
            Run::Refused { warnings, reason } => RunView::Refused {
                warnings: texts(warnings@),
                reason: reason@,
            },
            Run::Shown { warnings, text } => RunView::Shown {
                warnings: texts(warnings@),
                text: text@,
            },
            Run::Convert { warnings, settings } => RunView::Convert {
                warnings: texts(warnings@),
                settings: settings@,
            },
        }
    }
}

/// How much is said about a command line. One that cannot be applied is talked
/// about in full.
pub open spec fn level_of(outcome: Result<SettingsView, ApplyErrorView>) -> LogLevel {
    match outcome {
        Ok(settings) => settings.global.log_level,
        Err(_) => LogLevel::Info,
    }
}

/// The sentence of settings that could not be applied.
pub open spec fn apply_message(error: ApplyErrorView) -> Seq<char> {
    error.option + ": "@ + error.reason
}

/// What a command line leads to. One that asks how it was understood is shown
/// that, even where it could not be applied.
pub open spec fn run_of(args: Seq<Seq<char>>) -> RunView {
    if args.len() == 0 {
        RunView::Usage
    } else {
        match asked_for(args) {
            Some(spec) => RunView::Meta(answer_of(spec.long@)),
            None => match tokenized(args) {
                Err(error) => RunView::Refused {
                    warnings: Seq::empty(),
                    reason: parse_error_message(error),
                },
                Ok(parsed) => {
                    let outcome = applied(parsed);
                    let level = level_of(outcome);
                    let warnings = if level is Warn || level is Info {
                        warnings_of(in_written_order(every_option(parsed))).0
                    } else {
                        Seq::empty()
                    };
                    if has_option(parsed.globals, "dump-parse"@) {
                        RunView::Shown { warnings, text: parse_text(parsed) }
                    } else {
                        match outcome {
                            Err(error) => RunView::Refused {
                                warnings,
                                reason: apply_message(error),
                            },
                            Ok(settings) => RunView::Convert { warnings, settings },
                        }
                    }
                },
            },
        }
    }
}

/// Decide what a command line leads to.
pub fn run(args: &Vec<String>) -> (run: Run)
    ensures
        run@ == run_of(texts(args@)),
{
    assert(texts(args@).len() == args@.len());
    if args.len() == 0 {
        return Run::Usage;
    }
    if let Some(spec) = find_meta_option(args) {
        return Run::Meta(meta_answer(&spec));
    }
    let parsed = match tokenize(copy_texts(args)) {
        Ok(parsed) => parsed,
        Err(error) => {
            let warnings: Vec<String> = Vec::new();
            assert(texts(warnings@) =~= Seq::empty());
            return Run::Refused { warnings, reason: error.message() };
        },
    };
    let outcome = apply(&parsed);
    let level = match &outcome {
        Ok(settings) => settings.global.log_level,
        Err(_) => LogLevel::Info,
    };
    let warnings = if level.shows_warnings() {
        option_warnings(&parsed)
    } else {
        let none: Vec<String> = Vec::new();
        assert(texts(none@) =~= Seq::empty());
        none
    };
    if asks_for(&parsed.globals, "dump-parse") {
        return Run::Shown { warnings, text: describe_parse(&parsed) };
    }
    match outcome {
        Ok(settings) => Run::Convert { warnings, settings },
        Err(error) => Run::Refused { warnings, reason: error.message() },
    }
}

/// The browser that a command line names.
pub open spec fn named_browser(args: Seq<Seq<char>>) -> Option<Seq<char>> {
    match tokenized(args) {
        Ok(parsed) => match applied(parsed) {
            Ok(settings) => settings.global.browser.path,
            Err(_) => None,
        },
        Err(_) => None,
    }
}

/// The browser that a command line names, also where it lacks its documents.
pub open spec fn browser_flag_of(args: Seq<Seq<char>>) -> Option<Seq<char>> {
    match named_browser(args) {
        Some(path) => Some(path),
        None => named_browser(args.push("-"@).push("-"@)),
    }
}

fn read_browser(args: Vec<String>) -> (path: Option<String>)
    ensures
        maybe(path) == named_browser(texts(args@)),
{
    match tokenize(args) {
        Ok(parsed) => match apply(&parsed) {
            Ok(settings) => copy_maybe(&settings.global.browser.path),
            Err(_) => None,
        },
        Err(_) => None,
    }
}

/// The browser that a command line names, also where it lacks its documents.
pub fn browser_flag(args: &Vec<String>) -> (path: Option<String>)
    ensures
        maybe(path) == browser_flag_of(texts(args@)),
{
    if let Some(path) = read_browser(copy_texts(args)) {
        return Some(path);
    }
    let mut complete = copy_texts(args);
    let ghost before = texts(complete@);
    complete.push("-".to_owned());
    complete.push("-".to_owned());
    assert(texts(complete@) =~= before.push("-"@).push("-"@));
    read_browser(complete)
}

/// A report on the browser that was found.
pub open spec fn browser_text(executable: ExecutableView, flag: Option<Seq<char>>) -> Seq<char> {
    "path:    "@ + executable.path + "\nsource:  "@ + origin_text(executable.origin) + "\n"@
        + (match flag {
        Some(given) => if executable.origin is Flag {
            ""@
        } else {
            "note:    --chromium-path "@ + given
                + " is not a browser, so the search carried on\n"@
        },
        None => ""@,
    }) + "flavour: "@ + (match executable.flavour {
        Flavour::HeadlessShell => "chrome-headless-shell"@,
        Flavour::FullBrowser => "full browser, run with --headless"@,
    }) + "\n"@
}

/// Report on the browser that was found. A flag that led to none is noted.
pub fn browser_report(executable: &Executable, flag: &Option<String>) -> (text: String)
    ensures
        text@ == browser_text(executable@, maybe(*flag)),
{
    let mut text = "path:    ".to_owned();
    text.push_str(&executable.path);
    text.push_str("\nsource:  ");
    text.push_str(&executable.origin.describe());
    text.push_str("\n");
    let found_by_flag = match executable.origin {
        Origin::Flag => true,
        _ => false,
    };
    let ghost before = text@;
    match flag {
        Some(given) => {
            if !found_by_flag {
                text.push_str("note:    --chromium-path ");
                text.push_str(given);
                text.push_str(" is not a browser, so the search carried on\n");
                assert(text@ =~= before + ("note:    --chromium-path "@ + given@
                    + " is not a browser, so the search carried on\n"@));
            } else {
                text.push_str("");
            }
        },
        None => {
            text.push_str("");
        },
    }
    text.push_str("flavour: ");
    text.push_str(
        match executable.flavour {
            Flavour::HeadlessShell => "chrome-headless-shell",
            Flavour::FullBrowser => "full browser, run with --headless",
        },
    );
    text.push_str("\n");
    text
}

proof fn lemma_warnings(list: Seq<OccurrenceView>)
    ensures
        warnings_of(list).0.len() == warnings_of(list).1.len(),
        warnings_of(list).1.no_duplicates(),
    decreases list.len(),
{
    if list.len() > 0 {
        lemma_warnings(list.drop_last());
    }
}

/// There is one warning for each option that does nothing, however often it is
/// written.
pub proof fn law_an_option_is_warned_about_once(list: Seq<OccurrenceView>)
    ensures
        warnings_of(list).0.len() == warnings_of(list).1.len(),
        warnings_of(list).1.no_duplicates(),
{
    lemma_warnings(list);
}

/// A question is answered whatever else the command line holds.
pub proof fn law_a_question_is_answered_first(args: Seq<Seq<char>>)
    requires
        args.len() > 0,
        asked_for(args) is Some,
    ensures
        run_of(args) == RunView::Meta(answer_of(asked_for(args)->0.long@)),
{
}

proof fn lemma_lines(options: Seq<OptionSpec>, extended: bool, at: int)
    requires
        0 <= at < options.len(),
        is_shown(options[at], extended),
    ensures
        exists|before: Seq<char>, after: Seq<char>|
            option_lines(options, extended) == #[trigger] (before + option_help(options[at])
                + after),
    decreases options.len(),
{
    let earlier = option_lines(options.drop_last(), extended);
    if at == options.len() - 1 {
        assert(option_lines(options, extended) =~= earlier + option_help(options[at])
            + Seq::<char>::empty());
    } else {
        lemma_lines(options.drop_last(), extended, at);
        let (before, after) = choose|before: Seq<char>, after: Seq<char>|
            earlier == #[trigger] (before + option_help(options.drop_last()[at]) + after);
        let own = if is_shown(options.last(), extended) {
            option_help(options.last())
        } else {
            Seq::empty()
        };
        assert(options.drop_last()[at] == options[at]);
        assert(option_lines(options, extended) =~= before + option_help(options[at]) + (after
            + own));
    }
}

/// The extended help shows every option, and the short help every option that
/// does something.
pub proof fn law_the_help_shows_its_options(options: Seq<OptionSpec>, extended: bool, at: int)
    requires
        0 <= at < options.len(),
        extended || options[at].support is Implemented,
    ensures
        exists|before: Seq<char>, after: Seq<char>|
            option_lines(options, extended) == #[trigger] (before + option_help(options[at])
                + after),
{
    lemma_lines(options, extended, at);
}

/// The questions that are answered before a conversion, by their names; another one is
/// said not to be implemented.
pub proof fn law_questions_by_their_names(long: Seq<char>)
    ensures
        long == "help"@ ==> answer_of(long) == MetaAnswerView::Text(help_of(false)),
        long == "extended-help"@ ==> answer_of(long) == MetaAnswerView::Text(help_of(true)),
        long == "version"@ ==> answer_of(long) == MetaAnswerView::Text(
            "rchtmltopdf"@ + " "@ + VERSION@
                + "\nwkhtmltopdf-compatible CLI, modern Chromium rendering\n"@,
        ),
        long == "license"@ ==> answer_of(long) == MetaAnswerView::Text(
            "rchtmltopdf"@ + " "@ + VERSION@ + TERMS@ + REPOSITORY@ + "\n"@,
        ),
        long == "dump-chromium"@ ==> answer_of(long) is Chromium,
        long != "help"@ && long != "extended-help"@ && long != "version"@ && long != "license"@
            && long != "dump-chromium"@ ==> answer_of(long) == MetaAnswerView::Unknown(
            "rchtmltopdf"@ + ": --"@ + long + " is not implemented; see "@ + REPOSITORY@,
        ),
{
    reveal_strlit("help");
    reveal_strlit("extended-help");
    reveal_strlit("version");
    reveal_strlit("license");
    reveal_strlit("dump-chromium");
    assert("help"@.len() == 4 && "extended-help"@.len() == 13 && "version"@.len() == 7
        && "license"@.len() == 7 && "dump-chromium"@.len() == 13);
    assert("version"@[0] == 'v' && "license"@[0] == 'l' && "extended-help"@[0] == 'e'
        && "dump-chromium"@[0] == 'd');
}

/// What a command line leads to: how the program is used where it is empty, an answer where
/// it asks, a refusal where it cannot be read or applied, what was understood where that is
/// asked for, and a conversion otherwise.
pub proof fn law_what_a_command_line_leads_to(args: Seq<Seq<char>>)
    ensures
        args.len() == 0 ==> run_of(args) is Usage,
        args.len() > 0 && asked_for(args) is None && tokenized(args) is Err ==> run_of(args) == (
        RunView::Refused {
            warnings: Seq::empty(),
            reason: parse_error_message(tokenized(args)->Err_0),
        }),
        args.len() > 0 && asked_for(args) is None && tokenized(args) is Ok ==> {
            let parsed = tokenized(args)->Ok_0;
            let shown = exists|i: int|
                0 <= i < parsed.globals.len() && (#[trigger] parsed.globals[i]).spec.long@
                    == "dump-parse"@;
            &&& shown ==> run_of(args) is Shown && run_of(args)->text == parse_text(parsed)
            &&& !shown && applied(parsed) is Ok ==> run_of(args) is Convert && run_of(
                args,
            )->settings == applied(parsed)->Ok_0
            &&& !shown && applied(parsed) is Err ==> run_of(args) is Refused && run_of(args)->reason
                == applied(parsed)->Err_0.option + ": "@ + applied(parsed)->Err_0.reason
        },
{
}

/// Warnings are given unless only errors, or nothing, are to be told.
pub proof fn law_when_warnings_are_given(args: Seq<Seq<char>>)
    requires
        args.len() > 0,
        asked_for(args) is None,
        tokenized(args) is Ok,
        applied(tokenized(args)->Ok_0) is Ok,
        run_of(args) is Convert,
    ensures
        ({
            let parsed = tokenized(args)->Ok_0;
            let level = applied(parsed)->Ok_0.global.log_level;
            &&& level == LogLevel::Quiet || level == LogLevel::Error ==> run_of(
                args,
            )->Convert_warnings.len() == 0
            &&& level == LogLevel::Warn || level == LogLevel::Info ==> run_of(
                args,
            )->Convert_warnings == warnings_of(in_written_order(every_option(parsed))).0
        }),
{
}

/// An option that does nothing is warned about where it is first written, in the words of
/// what was written, and not again; one that does something is not warned about.
pub proof fn law_what_is_warned_about_in_turn(
    list: Seq<OccurrenceView>,
    occurrence: OccurrenceView,
)
    ensures
        ({
            let (lines, named) = warnings_of(list);
            let (after, next) = warnings_of(list.push(occurrence));
            let acted = occurrence.spec.support is Implemented || occurrence.spec.support
                is Extension || occurrence.spec.support is Meta;
            &&& acted || named.contains(occurrence.spec.long@) ==> after == lines && next == named
            &&& occurrence.spec.support is Planned && !named.contains(occurrence.spec.long@) ==> after == lines.push(
                occurrence.as_written + " is accepted but not implemented yet ("@
                    + occurrence.spec.support->Planned_0@
                    + "); it is being ignored"@,
            ) && next == named.push(occurrence.spec.long@)
            &&& occurrence.spec.support is NoEquivalent && !named.contains(occurrence.spec.long@) ==> after == lines.push(
                occurrence.as_written
                    + " is accepted for compatibility but has no Chromium equivalent ("@
                    + occurrence.spec.support->NoEquivalent_0@
                    + "); it is being ignored"@,
            ) && next == named.push(occurrence.spec.long@)
        }),
{
    assert(list.push(occurrence).drop_last() =~= list);
    assert(list.push(occurrence).last() == occurrence);
}

/// What was understood is shown option by option and object by object, with everything that
/// was written.
pub proof fn law_what_was_understood_is_shown(
    parsed: TokenizedView,
    list: Seq<OccurrenceView>,
    occurrence: OccurrenceView,
    objects: Seq<ObjectView>,
    object: ObjectView,
    values: Seq<Seq<char>>,
    value: Seq<char>,
)
    ensures
        parse_text(parsed) == "global options:\n"@ + occurrence_lines(parsed.globals)
            + "object option defaults:\n"@ + occurrence_lines(parsed.defaults) + object_lines(
            parsed.objects,
        ) + (match parsed.output {
            OutputView::Stdout => "output: <stdout>\n"@,
            OutputView::Path(path) => "output: "@ + path + "\n"@,
        }),
        occurrence_lines(list.push(occurrence)) == occurrence_lines(list) + "    "@
            + occurrence.as_written + quoted_values(occurrence.values) + "\n"@,
        quoted_values(values.push(value)) == quoted_values(values) + " "@ + quoted_text(value),
        object_lines(objects.push(object)) == object_lines(objects) + ("object "@ + decimal(
            objects.len() as int,
        ) + ": "@ + kind_text(object.kind) + "\n"@) + occurrence_lines(object.options),
        object.kind is Toc ==> kind_text(object.kind) == "toc"@,
        object.kind matches ObjectKindView::Page(input) ==> kind_text(object.kind) == "page "@ + (
        match input {
            InputView::Stdin => "<stdin>"@,
            InputView::Url(url) => "url "@ + url,
            InputView::Path(path) => "file "@ + path,
        }),
        object.kind matches ObjectKindView::Cover(input) ==> kind_text(object.kind) == "cover "@ + (
        match input {
            InputView::Stdin => "<stdin>"@,
            InputView::Url(url) => "url "@ + url,
            InputView::Path(path) => "file "@ + path,
        }),
{
    assert(list.push(occurrence).drop_last() =~= list);
    assert(list.push(occurrence).last() == occurrence);
    assert(values.push(value).drop_last() =~= values);
    assert(values.push(value).last() == value);
    assert(objects.push(object).drop_last() =~= objects);
    assert(objects.push(object).last() == object);
}

/// The help shows every option in its section, the extended help even those that do
/// nothing, with a note beside them; a section with nothing to show is left out.
pub proof fn law_what_the_help_shows(
    options: Seq<OptionSpec>,
    spec: OptionSpec,
    list: Seq<(&'static str, Seq<OptionSpec>)>,
    section: (&'static str, Seq<OptionSpec>),
    extended: bool,
)
    ensures
        extended || spec.support is Implemented || spec.support is Extension || spec.support is Meta
            ==> option_lines(options.push(spec), extended) == option_lines(options, extended)
            + option_help(spec),
        !extended && (spec.support is Planned || spec.support is NoEquivalent) ==> option_lines(
            options.push(spec),
            extended,
        ) == option_lines(options, extended),
        (exists|i: int| 0 <= i < section.1.len() && is_shown(#[trigger] section.1[i], extended))
            ==> sections_help(list.push(section), extended) == sections_help(list, extended) + (
        "\n"@ + section.0@ + ":\n"@ + option_lines(section.1, extended)),
        (forall|i: int| 0 <= i < section.1.len() ==> !is_shown(#[trigger] section.1[i], extended))
            ==> sections_help(list.push(section), extended) == sections_help(list, extended),
{
    assert(options.push(spec).drop_last() =~= options);
    assert(options.push(spec).last() == spec);
    assert(list.push(section).drop_last() =~= list);
    assert(list.push(section).last() == section);
    let lines = option_lines(options, extended);
    assert(lines + Seq::<char>::empty() =~= lines);
    let all = sections_help(list, extended);
    assert(all + Seq::<char>::empty() =~= all);
}

/// The line of an option: its letter and its name, its values, what it does, and a note
/// where it does nothing.
pub proof fn law_the_line_of_an_option(spec: OptionSpec)
    ensures
        ({
            let names = match spec.short {
                Some(letter) => "  -"@ + seq![letter] + ", --"@ + spec.long@,
                None => "      --"@ + spec.long@,
            };
            &&& spec.value_names is Nothing ==> option_left(spec) == names
            &&& spec.value_names matches Values::One(name) ==> option_left(spec) == names + (" <"@
                + name@ + ">"@)
            &&& spec.value_names matches Values::Two(first, second) ==> option_left(spec) == names
                + (" <"@ + first@ + "> <"@ + second@ + ">"@)
            &&& spec.support is Planned ==> option_note(spec.support) == " [not implemented yet]"@
            &&& spec.support is NoEquivalent ==> option_note(spec.support)
                == " [accepted, ignored]"@
            &&& spec.support is Implemented || spec.support is Extension || spec.support is Meta
                ==> option_note(spec.support).len() == 0
            &&& option_left(spec).len() < 38 ==> option_help(spec) == padded(option_left(spec), 38)
                + spec.help@ + option_note(spec.support) + "\n"@
            &&& option_left(spec).len() >= 38 ==> option_help(spec) == option_left(spec) + "\n"@
                + padded(Seq::empty(), 38) + spec.help@ + option_note(spec.support) + "\n"@
        }),
{
    reveal_strlit("");
    assert(""@ =~= Seq::empty());
    let names = match spec.short {
        Some(letter) => "  -"@ + seq![letter] + ", --"@ + spec.long@,
        None => "      --"@ + spec.long@,
    };
    assert(names + ""@ =~= names);
    let left = option_left(spec);
    assert(left + "\n"@ + padded(""@, 38) == left + "\n"@ + padded(Seq::empty(), 38));
}

/// The browser of a command line is the one that it names, also where it lacks its
/// documents; the report on it says where it was found, and that one that was named was
/// none.
pub proof fn law_the_browser_of_a_command_line(
    args: Seq<Seq<char>>,
    executable: ExecutableView,
    given: Seq<char>,
)
    ensures
        tokenized(args) is Ok && applied(tokenized(args)->Ok_0) is Ok && applied(
            tokenized(args)->Ok_0,
        )->Ok_0.global.browser.path is Some ==> browser_flag_of(args) == applied(
            tokenized(args)->Ok_0,
        )->Ok_0.global.browser.path,
        tokenized(args) is Err ==> browser_flag_of(args) == named_browser(
            args.push("-"@).push("-"@),
        ),
        executable.origin is Flag ==> browser_text(executable, Some(given)) == browser_text(
            executable,
            None,
        ),
        !(executable.origin is Flag) ==> browser_text(executable, Some(given)) == "path:    "@
            + executable.path + "\nsource:  "@ + origin_text(executable.origin) + "\n"@ + (
        "note:    --chromium-path "@ + given + " is not a browser, so the search carried on\n"@)
            + "flavour: "@ + (if executable.flavour == Flavour::HeadlessShell {
            "chrome-headless-shell"@
        } else {
            "full browser, run with --headless"@
        }) + "\n"@,
{
}

/// How the program says that it is used, and what its help begins with.
pub proof fn law_how_the_program_is_used(extended: bool)
    ensures
        usage_of() == "rchtmltopdf"@ + " "@ + VERSION@ + "\n\nUsage:\n  "@ + "rchtmltopdf"@
            + " [GLOBAL OPTION]... [OBJECT]... <output file>\n\nRun `"@ + "rchtmltopdf"@
            + " --help` for the common options,\nor `"@ + "rchtmltopdf"@
            + " --extended-help` for all of them.\n"@,
        help_of(extended) == usage_of() + DESCRIPTION@ + sections_help(headings(), extended),
        headings().len() == 6,
        headings()[0] == ("General Options", crate::table::general_table()),
        headings()[1] == ("Outline Options", crate::table::outline_table()),
        headings()[2] == ("Page Options", crate::table::page_table()),
        headings()[3] == ("Headers And Footer Options", crate::table::header_footer_table()),
        headings()[4] == ("TOC Options", crate::table::toc_table()),
        headings()[5] == ("rchtmltopdf Options", crate::table::extension_table()),
{
}

} // verus!
