//! Turning arguments into objects, options and an output.
//!
//! ```text
//! rchtmltopdf [GLOBAL OPTION]... [OBJECT]... <output file>
//! ```
//!
//! An object is `page <input>`, `cover <input>`, `toc`, or a bare input. The
//! last positional argument is the output, and everything positional before it
//! is an input. A global option applies to the whole run wherever it sits, and
//! an object option applies to the object it follows. Object options written
//! before the first object become defaults that every object inherits.
//!
//! `--option=value` is accepted for options taking exactly one value, and `--`
//! ends option parsing.

use crate::document::{input_of, output_of, Input, InputView, Output, OutputView};
use crate::table::{
    law_long_names_are_plain, law_lookup_long, law_lookup_long_finds_each_option, long_in,
    lookup_long, lookup_short, short_in, table, OptionSpec, Scope,
};
use crate::text::{
    chars_of, decimal, find, position_of, push_number, same, strip, text_of, texts, without_prefix,
};
use vstd::multiset::Multiset;
use vstd::prelude::*;

verus! {

/// What stands at one place of the command line.
#[derive(Debug, PartialEq, Eq)]
pub enum ObjectKind {
    Page(Input),
    Cover(Input),
    Toc,
}

/// An [`ObjectKind`] by the characters it holds.
pub enum ObjectKindView {
    Page(InputView),
    Cover(InputView),
    Toc,
}

impl View for ObjectKind {
    type V = ObjectKindView;

    open spec fn view(&self) -> ObjectKindView {
        match self {
            ObjectKind::Page(input) => ObjectKindView::Page(input@),
            ObjectKind::Cover(input) => ObjectKindView::Cover(input@),
            ObjectKind::Toc => ObjectKindView::Toc,
        }
    }
}

/// One option as it was written, with the values it consumed.
#[derive(Debug, PartialEq, Eq)]
pub struct Occurrence {
    pub spec: OptionSpec,
    /// Exactly how it was written, such as `--margin-top` or `-T`.
    pub as_written: String,
    pub values: Vec<String>,
    /// The position of the option among the arguments.
    pub index: usize,
}

/// An [`Occurrence`] by the characters it holds.
pub struct OccurrenceView {
    pub spec: OptionSpec,
    pub as_written: Seq<char>,
    pub values: Seq<Seq<char>>,
    pub index: int,
}

impl View for Occurrence {
    type V = OccurrenceView;

    open spec fn view(&self) -> OccurrenceView {
        OccurrenceView {
            spec: self.spec,
            as_written: self.as_written@,
            values: texts(self.values@),
            index: self.index as int,
        }
    }
}

/// The occurrences of a list.
pub open spec fn occurrences_of(list: Seq<Occurrence>) -> Seq<OccurrenceView> {
    list.map_values(|occurrence: Occurrence| occurrence@)
}

/// One object on the command line, with the options written after it.
#[derive(Debug, PartialEq, Eq)]
pub struct Object {
    pub kind: ObjectKind,
    pub options: Vec<Occurrence>,
}

/// An [`Object`] by the characters it holds.
pub struct ObjectView {
    pub kind: ObjectKindView,
    pub options: Seq<OccurrenceView>,
}

impl View for Object {
    type V = ObjectView;

    open spec fn view(&self) -> ObjectView {
        ObjectView { kind: self.kind@, options: occurrences_of(self.options@) }
    }
}

/// The objects of a list.
pub open spec fn objects_of(list: Seq<Object>) -> Seq<ObjectView> {
    list.map_values(|object: Object| object@)
}

/// A command line, taken apart but not yet interpreted.
#[derive(Debug, PartialEq, Eq)]
pub struct Tokenized {
    /// Options applying to the whole run.
    pub globals: Vec<Occurrence>,
    /// Object options written before the first object, inherited by all of them.
    pub defaults: Vec<Occurrence>,
    pub objects: Vec<Object>,
    pub output: Output,
}

/// A [`Tokenized`] by the characters it holds.
pub struct TokenizedView {
    pub globals: Seq<OccurrenceView>,
    pub defaults: Seq<OccurrenceView>,
    pub objects: Seq<ObjectView>,
    pub output: OutputView,
}

impl View for Tokenized {
    type V = TokenizedView;

    open spec fn view(&self) -> TokenizedView {
        TokenizedView {
            globals: occurrences_of(self.globals@),
            defaults: occurrences_of(self.defaults@),
            objects: objects_of(self.objects@),
            output: self.output@,
        }
    }
}

/// Where an option should have been written.
#[derive(Clone, Copy, Debug, PartialEq, Eq)]
pub enum Placement {
    /// Before the first input.
    GlobalArea,
    /// After a `toc` object.
    TocObject,
}

/// A command line that cannot be taken apart.
#[derive(Debug, PartialEq, Eq)]
pub enum ParseError {
    UnknownOption { as_written: String, index: usize },
    MissingValues { as_written: String, wanted: usize, got: usize, index: usize },
    /// `--flag=value` on an option that takes none.
    UnexpectedValue { as_written: String, index: usize },
    /// `--option=value` on an option that takes several.
    InlineValueNotAllowed { as_written: String, wanted: usize, index: usize },
    /// `page` or `cover` with nothing after it to use as the input.
    ObjectWithoutInput { keyword: String, index: usize },
    /// Fewer than one input and one output.
    NotEnoughArguments,
    /// An option written somewhere its scope does not allow.
    WrongLocation { as_written: String, belongs: Placement, index: usize },
}

/// A [`ParseError`] by the characters it holds.
pub enum ParseErrorView {
    UnknownOption { as_written: Seq<char>, index: int },
    MissingValues { as_written: Seq<char>, wanted: int, got: int, index: int },
    UnexpectedValue { as_written: Seq<char>, index: int },
    InlineValueNotAllowed { as_written: Seq<char>, wanted: int, index: int },
    ObjectWithoutInput { keyword: Seq<char>, index: int },
    NotEnoughArguments,
    WrongLocation { as_written: Seq<char>, belongs: Placement, index: int },
}

impl View for ParseError {
    type V = ParseErrorView;

    open spec fn view(&self) -> ParseErrorView {
        match self {
            ParseError::UnknownOption { as_written, index } => ParseErrorView::UnknownOption {
                as_written: as_written@,
                index: *index as int,
            },
            ParseError::MissingValues { as_written, wanted, got, index } =>
                ParseErrorView::MissingValues {
                as_written: as_written@,
                wanted: *wanted as int,
                got: *got as int,
                index: *index as int,
            },
            ParseError::UnexpectedValue { as_written, index } => ParseErrorView::UnexpectedValue {
                as_written: as_written@,
                index: *index as int,
            },
            ParseError::InlineValueNotAllowed { as_written, wanted, index } =>
                ParseErrorView::InlineValueNotAllowed {
                as_written: as_written@,
                wanted: *wanted as int,
                index: *index as int,
            },
            ParseError::ObjectWithoutInput { keyword, index } =>
                ParseErrorView::ObjectWithoutInput { keyword: keyword@, index: *index as int },
            ParseError::NotEnoughArguments => ParseErrorView::NotEnoughArguments,
            ParseError::WrongLocation { as_written, belongs, index } =>
                ParseErrorView::WrongLocation {
                as_written: as_written@,
                belongs: *belongs,
                index: *index as int,
            },
        }
    }
}

/// The sentence that a refused command line is answered with.
pub open spec fn parse_error_message(error: ParseErrorView) -> Seq<char> {
    match error {
        ParseErrorView::UnknownOption { as_written, .. } => "Unknown long argument "@ + as_written,
        ParseErrorView::MissingValues { as_written, wanted, got, .. } => as_written + " needs "@
            + decimal(wanted) + " value(s), but only "@ + decimal(got) + " were given"@,
        ParseErrorView::UnexpectedValue { as_written, .. } => as_written + " takes no value"@,
        ParseErrorView::InlineValueNotAllowed { as_written, wanted, .. } => as_written
            + " needs "@ + decimal(wanted)
            + " values, so they must be written as separate arguments"@,
        ParseErrorView::ObjectWithoutInput { keyword, .. } => "`"@ + keyword
            + "` must be followed by an input"@,
        ParseErrorView::NotEnoughArguments =>
            "You need to specify at least one input file, and exactly one output file"@,
        ParseErrorView::WrongLocation { as_written, belongs: Placement::GlobalArea, .. } =>
            as_written + " is a global option, so it must be written before the first input"@,
        ParseErrorView::WrongLocation { as_written, belongs: Placement::TocObject, .. } =>
            as_written + " applies to a table of contents, so it must follow a `toc` object"@,
    }
}

impl ParseError {
    /// The sentence that the command line is answered with.
    pub fn message(&self) -> (text: String)
        ensures
            text@ == parse_error_message(self@),
    {
        match self {
            ParseError::UnknownOption { as_written, .. } => {
                let mut text = "Unknown long argument ".to_owned();
                text.push_str(as_written);
                text
            },
            ParseError::MissingValues { as_written, wanted, got, .. } => {
                let mut text = as_written.clone();
                text.push_str(" needs ");
                push_number(&mut text, *wanted as u64);
                text.push_str(" value(s), but only ");
                push_number(&mut text, *got as u64);
                text.push_str(" were given");
                text
            },
            ParseError::UnexpectedValue { as_written, .. } => {
                let mut text = as_written.clone();
                text.push_str(" takes no value");
                text
            },
            ParseError::InlineValueNotAllowed { as_written, wanted, .. } => {
                let mut text = as_written.clone();
                text.push_str(" needs ");
                push_number(&mut text, *wanted as u64);
                text.push_str(" values, so they must be written as separate arguments");
                text
            },
            ParseError::ObjectWithoutInput { keyword, .. } => {
                let mut text = "`".to_owned();
                text.push_str(keyword);
                text.push_str("` must be followed by an input");
                text
            },
            ParseError::NotEnoughArguments => {
                "You need to specify at least one input file, and exactly one output file".to_owned()
            },
            ParseError::WrongLocation { as_written, belongs, .. } => {
                let mut text = as_written.clone();
                match belongs {
                    Placement::GlobalArea => {
                        text.push_str(
                            " is a global option, so it must be written before the first input",
                        );
                    },
                    Placement::TocObject => {
                        text.push_str(
                            " applies to a table of contents, so it must follow a `toc` object",
                        );
                    },
                }
                text
            },
        }
    }
}

/// One argument, or an option with the arguments that are its values.
pub enum Token {
    Opt(Occurrence),
    Positional { value: String, index: usize },
}

/// A [`Token`] by the characters it holds.
pub enum TokenView {
    Opt(OccurrenceView),
    Positional { value: Seq<char>, index: int },
}

impl View for Token {
    type V = TokenView;

    open spec fn view(&self) -> TokenView {
        match self {
            Token::Opt(occurrence) => TokenView::Opt(occurrence@),
            Token::Positional { value, index } => TokenView::Positional {
                value: value@,
                index: *index as int,
            },
        }
    }
}

/// The tokens of a list.
pub open spec fn tokens_of(list: Seq<Token>) -> Seq<TokenView> {
    list.map_values(|token: Token| token@)
}

/// What begins with a dash is an option, but for a lone dash.
pub open spec fn is_option(arg: Seq<char>) -> bool {
    arg.len() > 0 && arg[0] == '-' && arg != "-"@
}

/// The name of an option as it was written, and the value behind its `=`.
pub open spec fn inline_split(arg: Seq<char>) -> (Seq<char>, Option<Seq<char>>) {
    match find(arg, '=') {
        Some(at) => (arg.take(at), Some(arg.skip(at + 1))),
        None => (arg, None),
    }
}

/// The option that a written name stands for.
pub open spec fn resolved(name: Seq<char>, index: int) -> Result<OptionSpec, ParseErrorView> {
    let found = match without_prefix(name, "--"@) {
        Some(long) => long_in(table(), long),
        None => match without_prefix(name, "-"@) {
            Some(short) => if short.len() == 1 {
                short_in(table(), short[0])
            } else {
                None
            },
            None => None,
        },
    };
    match found {
        Some(spec) => Ok(spec),
        None => Err(ParseErrorView::UnknownOption { as_written: name, index }),
    }
}

/// The option at a position, with the values that it consumes.
pub open spec fn option_at(argv: Seq<Seq<char>>, index: int) -> Result<
    OccurrenceView,
    ParseErrorView,
> {
    let (name, inline) = inline_split(argv[index]);
    match resolved(name, index) {
        Err(error) => Err(error),
        Ok(spec) => {
            let wanted = spec.arity_of() as int;
            match inline {
                Some(value) => if wanted == 0 {
                    Err(ParseErrorView::UnexpectedValue { as_written: name, index })
                } else if wanted == 1 {
                    Ok(OccurrenceView { spec, as_written: name, values: seq![value], index })
                } else {
                    Err(ParseErrorView::InlineValueNotAllowed { as_written: name, wanted, index })
                },
                None => if index + 1 + wanted <= argv.len() {
                    Ok(
                        OccurrenceView {
                            spec,
                            as_written: name,
                            values: argv.subrange(index + 1, index + 1 + wanted),
                            index,
                        },
                    )
                } else {
                    Err(
                        ParseErrorView::MissingValues {
                            as_written: name,
                            wanted,
                            got: argv.len() - index - 1,
                            index,
                        },
                    )
                },
            }
        },
    }
}

/// How many arguments an option at a position takes up, itself included.
pub open spec fn width_at(argv: Seq<Seq<char>>, occurrence: OccurrenceView) -> int {
    match inline_split(argv[occurrence.index]).1 {
        Some(_) => 1,
        None => 1int + occurrence.values.len(),
    }
}

/// One token in front of the tokens that follow it.
pub open spec fn ahead_of(
    first: Seq<TokenView>,
    rest: Result<Seq<TokenView>, ParseErrorView>,
) -> Result<Seq<TokenView>, ParseErrorView> {
    match rest {
        Ok(tokens) => Ok(first + tokens),
        Err(error) => Err(error),
    }
}

/// The tokens of the arguments from a position on. Once `ended`, every argument
/// is positional.
pub open spec fn classified(argv: Seq<Seq<char>>, index: int, ended: bool) -> Result<
    Seq<TokenView>,
    ParseErrorView,
>
    decreases argv.len() - index,
{
    if index < 0 || index >= argv.len() {
        Ok(Seq::empty())
    } else if ended || !is_option(argv[index]) {
        ahead_of(
            seq![TokenView::Positional { value: argv[index], index }],
            classified(argv, index + 1, ended),
        )
    } else if argv[index] == "--"@ {
        classified(argv, index + 1, true)
    } else {
        match option_at(argv, index) {
            Err(error) => Err(error),
            Ok(occurrence) => ahead_of(
                seq![TokenView::Opt(occurrence)],
                classified(argv, index + width_at(argv, occurrence), ended),
            ),
        }
    }
}

/// What has been put together so far.
pub struct Assembly {
    pub globals: Seq<OccurrenceView>,
    pub defaults: Seq<OccurrenceView>,
    pub objects: Seq<ObjectView>,
    /// `page` or `cover`, waiting for its input.
    pub pending: Option<(Seq<char>, int)>,
}

/// The last object, with one option more.
pub open spec fn attach(objects: Seq<ObjectView>, occurrence: OccurrenceView) -> Seq<ObjectView> {
    objects.update(
        objects.len() - 1,
        ObjectView { options: objects.last().options.push(occurrence), ..objects.last() },
    )
}

/// Where an option goes.
pub open spec fn placed(state: Assembly, occurrence: OccurrenceView) -> Result<
    Assembly,
    ParseErrorView,
> {
    match occurrence.spec.scope {
        Scope::Global => Ok(Assembly { globals: state.globals.push(occurrence), ..state }),
        Scope::Toc => if state.objects.len() > 0 && state.objects.last().kind is Toc {
            Ok(Assembly { objects: attach(state.objects, occurrence), ..state })
        } else {
            Err(
                ParseErrorView::WrongLocation {
                    as_written: occurrence.as_written,
                    belongs: Placement::TocObject,
                    index: occurrence.index,
                },
            )
        },
        Scope::Object => if state.objects.len() > 0 {
            Ok(Assembly { objects: attach(state.objects, occurrence), ..state })
        } else {
            Ok(Assembly { defaults: state.defaults.push(occurrence), ..state })
        },
    }
}

/// An object with no options yet.
pub open spec fn bare(kind: ObjectKindView) -> ObjectView {
    ObjectView { kind, options: Seq::empty() }
}

/// What a positional argument adds.
pub open spec fn positioned(state: Assembly, value: Seq<char>, index: int) -> Assembly {
    match state.pending {
        Some((keyword, _)) => Assembly {
            objects: state.objects.push(
                bare(
                    if keyword == "cover"@ {
                        ObjectKindView::Cover(input_of(value))
                    } else {
                        ObjectKindView::Page(input_of(value))
                    },
                ),
            ),
            pending: None,
            ..state
        },
        None => if value == "page"@ || value == "cover"@ {
            Assembly { pending: Some((value, index)), ..state }
        } else if value == "toc"@ {
            Assembly { objects: state.objects.push(bare(ObjectKindView::Toc)), ..state }
        } else {
            Assembly {
                objects: state.objects.push(bare(ObjectKindView::Page(input_of(value)))),
                ..state
            }
        },
    }
}

/// One token added to what has been put together.
pub open spec fn step(state: Assembly, token: TokenView) -> Result<Assembly, ParseErrorView> {
    match token {
        TokenView::Opt(occurrence) => placed(state, occurrence),
        TokenView::Positional { value, index } => Ok(positioned(state, value, index)),
    }
}

/// Tokens put together in order, up to the first that is refused.
pub open spec fn folded(tokens: Seq<TokenView>) -> Result<Assembly, ParseErrorView>
    decreases tokens.len(),
{
    if tokens.len() == 0 {
        Ok(
            Assembly {
                globals: Seq::empty(),
                defaults: Seq::empty(),
                objects: Seq::empty(),
                pending: None,
            },
        )
    } else {
        match folded(tokens.drop_last()) {
            Err(error) => Err(error),
            Ok(state) => step(state, tokens.last()),
        }
    }
}

/// How many tokens are positional.
pub open spec fn positional_count(tokens: Seq<TokenView>) -> nat
    decreases tokens.len(),
{
    if tokens.len() == 0 {
        0
    } else {
        positional_count(tokens.drop_last()) + if tokens.last() is Positional {
            1nat
        } else {
            0nat
        }
    }
}

/// Where the last positional token stands.
pub open spec fn last_positional(tokens: Seq<TokenView>) -> int
    decreases tokens.len(),
{
    if tokens.len() == 0 || tokens.last() is Positional {
        tokens.len() - 1
    } else {
        last_positional(tokens.drop_last())
    }
}

/// Tokens put together into a command line.
pub open spec fn assembled(tokens: Seq<TokenView>) -> Result<TokenizedView, ParseErrorView> {
    if positional_count(tokens) < 2 {
        Err(ParseErrorView::NotEnoughArguments)
    } else {
        let last = last_positional(tokens);
        match folded(tokens.remove(last)) {
            Err(error) => Err(error),
            Ok(state) => match state.pending {
                Some((keyword, index)) => Err(ParseErrorView::ObjectWithoutInput { keyword, index }),
                None => if state.objects.len() == 0 {
                    Err(ParseErrorView::NotEnoughArguments)
                } else {
                    Ok(
                        TokenizedView {
                            globals: state.globals,
                            defaults: state.defaults,
                            objects: state.objects,
                            output: output_of(tokens[last]->value),
                        },
                    )
                },
            },
        }
    }
}

/// A command line taken apart.
pub open spec fn tokenized(argv: Seq<Seq<char>>) -> Result<TokenizedView, ParseErrorView> {
    match classified(argv, 0, false) {
        Err(error) => Err(error),
        Ok(tokens) => assembled(tokens),
    }
}

/// A copy of a list of texts.
pub fn copy_texts(list: &Vec<String>) -> (copy: Vec<String>)
    ensures
        copy@ == list@,
        texts(copy@) == texts(list@),
{
    let mut copy: Vec<String> = Vec::new();
    let mut at: usize = 0;
    while at < list.len()
        invariant
            at <= list@.len(),
            copy@ == list@.take(at as int),
        decreases list@.len() - at,
    {
        copy.push(list[at].clone());
        assert(list@.take(at + 1) =~= list@.take(at as int).push(list@[at as int]));
        at = at + 1;
    }
    assert(copy@ =~= list@);
    copy
}

impl Clone for Occurrence {
    fn clone(&self) -> (copy: Occurrence)
        ensures
            copy@ == self@,
    {
        Occurrence {
            spec: self.spec,
            as_written: self.as_written.clone(),
            values: copy_texts(&self.values),
            index: self.index,
        }
    }
}

impl Clone for ObjectKind {
    fn clone(&self) -> (copy: ObjectKind)
        ensures
            copy@ == self@,
    {
        match self {
            ObjectKind::Page(input) => ObjectKind::Page(input.clone()),
            ObjectKind::Cover(input) => ObjectKind::Cover(input.clone()),
            ObjectKind::Toc => ObjectKind::Toc,
        }
    }
}

/// Whether an argument is written as an option.
pub fn looks_like_option(arg: &str) -> (yes: bool)
    ensures
        yes == is_option(arg@),
{
    let chars = chars_of(arg);
    chars.len() > 0 && chars[0] == '-' && !same(arg, "-")
}

/// Part the name of an option from the value behind its `=`.
pub fn split_inline_value(arg: &str) -> (parts: (String, Option<String>))
    ensures
        (parts.0@, crate::text::maybe(parts.1)) == inline_split(arg@),
{
    let chars = chars_of(arg);
    let size: usize = chars.len();
    match position_of(&chars, '=', '=') {
        Some(at) => {
            let name = text_of(&chars, 0, at);
            let value = text_of(&chars, at + 1, size);
            assert(name@ =~= arg@.take(at as int));
            assert(value@ =~= arg@.skip(at + 1));
            (name, Some(value))
        },
        None => (arg.to_owned(), None),
    }
}

/// The option that a written name stands for.
pub fn resolve(as_written: &str, index: usize) -> (found: Result<OptionSpec, ParseError>)
    ensures
        match found {
            Ok(spec) => resolved(as_written@, index as int) == Ok::<OptionSpec, ParseErrorView>(
                spec,
            ),
            Err(error) => resolved(as_written@, index as int) == Err::<OptionSpec, ParseErrorView>(
                error@,
            ),
        },
{
    let found = match strip(as_written, "--") {
        Some(long) => lookup_long(&long),
        None => match strip(as_written, "-") {
            Some(short) => {
                let letters = chars_of(&short);
                if letters.len() == 1 {
                    lookup_short(letters[0])
                } else {
                    None
                }
            },
            None => None,
        },
    };
    match found {
        Some(spec) => Ok(spec),
        None => Err(ParseError::UnknownOption { as_written: as_written.to_owned(), index }),
    }
}

/// Read the option at a position, with its values.
fn read_option(argv: &Vec<String>, index: usize) -> (read: Result<(Occurrence, usize), ParseError>)
    requires
        index < argv@.len(),
    ensures
        match read {
            Ok((occurrence, next)) => {
                &&& option_at(texts(argv@), index as int) == Ok::<OccurrenceView, ParseErrorView>(
                    occurrence@,
                )
                &&& next == index + width_at(texts(argv@), occurrence@)
                &&& index < next <= argv@.len()
            },
            Err(error) => option_at(texts(argv@), index as int) == Err::<
                OccurrenceView,
                ParseErrorView,
            >(error@),
        },
{
    let size: usize = argv.len();
    let (name, inline) = split_inline_value(&argv[index]);
    assert(texts(argv@)[index as int] == argv@[index as int]@);
    let spec = match resolve(&name, index) {
        Ok(spec) => spec,
        Err(error) => {
            return Err(error);
        },
    };
    let wanted: usize = spec.arity();
    let mut values: Vec<String> = Vec::new();
    match inline {
        Some(value) => {
            if wanted == 0 {
                return Err(ParseError::UnexpectedValue { as_written: name, index });
            }
            if wanted > 1 {
                return Err(ParseError::InlineValueNotAllowed { as_written: name, wanted, index });
            }
            values.push(value);
            assert(texts(values@) =~= seq![value@]);
            Ok((Occurrence { spec, as_written: name, values, index }, index + 1))
        },
        None => {
            let left: usize = size - index - 1;
            if left < wanted {
                return Err(
                    ParseError::MissingValues { as_written: name, wanted, got: left, index },
                );
            }
            let mut at: usize = 0;
            while at < wanted
                invariant
                    at <= wanted <= left,
                    left == size - index - 1,
                    size == argv@.len(),
                    index < size,
                    values@ == argv@.subrange(index + 1, index + 1 + at),
                decreases wanted - at,
            {
                values.push(argv[index + 1 + at].clone());
                at = at + 1;
            }
            assert(texts(values@) =~= texts(argv@).subrange(index + 1, index + 1 + wanted));
            Ok((Occurrence { spec, as_written: name, values, index }, index + 1 + wanted))
        },
    }
}

/// Sort the arguments into options with their values, and the rest.
pub fn classify(argv: &Vec<String>) -> (outcome: Result<Vec<Token>, ParseError>)
    ensures
        match outcome {
            Ok(tokens) => classified(texts(argv@), 0, false) == Ok::<
                Seq<TokenView>,
                ParseErrorView,
            >(tokens_of(tokens@)),
            Err(error) => classified(texts(argv@), 0, false) == Err::<
                Seq<TokenView>,
                ParseErrorView,
            >(error@),
        },
{
    let ghost all = texts(argv@);
    let mut tokens: Vec<Token> = Vec::new();
    let mut index: usize = 0;
    let mut ended: bool = false;
    proof {
        lemma_ahead_of_nothing(classified(all, 0, false));
        assert(tokens_of(tokens@) =~= Seq::empty());
    }
    while index < argv.len()
        invariant
            index <= argv@.len(),
            all == texts(argv@),
            classified(all, 0, false) == ahead_of(
                tokens_of(tokens@),
                classified(all, index as int, ended),
            ),
        decreases argv@.len() - index,
    {
        let ghost before = tokens_of(tokens@);
        assert(all[index as int] == argv@[index as int]@);
        if ended || !looks_like_option(&argv[index]) {
            let value = argv[index].clone();
            tokens.push(Token::Positional { value, index });
            proof {
                let token = TokenView::Positional { value: all[index as int], index: index as int };
                assert(tokens_of(tokens@) =~= before + seq![token]);
                lemma_ahead_of_both(before, seq![token], classified(all, index + 1, ended));
            }
            index = index + 1;
        } else if same(&argv[index], "--") {
            ended = true;
            index = index + 1;
        } else {
            match read_option(argv, index) {
                Ok((occurrence, next)) => {
                    let ghost token = TokenView::Opt(occurrence@);
                    tokens.push(Token::Opt(occurrence));
                    proof {
                        assert(tokens_of(tokens@) =~= before + seq![token]);
                        lemma_ahead_of_both(before, seq![token], classified(all, next as int, ended));
                    }
                    index = next;
                },
                Err(error) => {
                    return Err(error);
                },
            }
        }
    }
    proof {
        assert(tokens_of(tokens@) + Seq::<TokenView>::empty() =~= tokens_of(tokens@));
    }
    Ok(tokens)
}

proof fn lemma_ahead_of_nothing(rest: Result<Seq<TokenView>, ParseErrorView>)
    ensures
        ahead_of(Seq::empty(), rest) == rest,
{
    match rest {
        Ok(tokens) => {
            assert(Seq::<TokenView>::empty() + tokens =~= tokens);
        },
        Err(_) => {},
    }
}

proof fn lemma_ahead_of_both(
    first: Seq<TokenView>,
    second: Seq<TokenView>,
    rest: Result<Seq<TokenView>, ParseErrorView>,
)
    ensures
        ahead_of(first, ahead_of(second, rest)) == ahead_of(first + second, rest),
{
    match rest {
        Ok(tokens) => {
            assert(first + (second + tokens) =~= (first + second) + tokens);
        },
        Err(_) => {},
    }
}

/// A token that is refused stays refused, whatever follows it.
proof fn lemma_refusal_sticks(tokens: Seq<TokenView>, at: int, error: ParseErrorView)
    requires
        0 <= at <= tokens.len(),
        folded(tokens.take(at)) == Err::<Assembly, ParseErrorView>(error),
    ensures
        folded(tokens) == Err::<Assembly, ParseErrorView>(error),
    decreases tokens.len(),
{
    if at == tokens.len() {
        assert(tokens.take(at) =~= tokens);
    } else {
        assert(tokens.drop_last().take(at) =~= tokens.take(at));
        lemma_refusal_sticks(tokens.drop_last(), at, error);
    }
}

/// Where the last positional token stands, it is one.
proof fn lemma_last_positional(tokens: Seq<TokenView>)
    requires
        positional_count(tokens) > 0,
    ensures
        0 <= last_positional(tokens) < tokens.len(),
        tokens[last_positional(tokens)] is Positional,
        forall|i: int|
            last_positional(tokens) < i < tokens.len() ==> !(#[trigger] tokens[i] is Positional),
    decreases tokens.len(),
{
    if !(tokens.last() is Positional) {
        lemma_last_positional(tokens.drop_last());
        assert forall|i: int| last_positional(tokens) < i < tokens.len() implies !(
        #[trigger] tokens[i] is Positional) by {
            if i < tokens.len() - 1 {
                assert(tokens.drop_last()[i] == tokens[i]);
            }
        }
    }
}

/// Put the tokens together into objects, options and an output.
#[verifier::rlimit(40)]
pub fn assemble(tokens: Vec<Token>) -> (outcome: Result<Tokenized, ParseError>)
    ensures
        match outcome {
            Ok(parsed) => assembled(tokens_of(tokens@)) == Ok::<TokenizedView, ParseErrorView>(
                parsed@,
            ),
            Err(error) => assembled(tokens_of(tokens@)) == Err::<TokenizedView, ParseErrorView>(
                error@,
            ),
        },
{
    let ghost all = tokens_of(tokens@);
    let mut left = tokens;
    let size: usize = left.len();
    let mut count: usize = 0;
    let mut last: usize = 0;
    let mut at: usize = 0;
    assert(all.take(0) =~= Seq::empty());
    while at < size
        invariant
            at <= size == left@.len(),
            all == tokens_of(left@),
            count == positional_count(all.take(at as int)),
            count <= at,
            count > 0 ==> last == last_positional(all.take(at as int)),
            count > 0 ==> last < at,
        decreases size - at,
    {
        assert(all.take(at + 1).drop_last() =~= all.take(at as int));
        assert(all.take(at + 1).last() == left@[at as int]@);
        if let Token::Positional { .. } = &left[at] {
            count = count + 1;
            last = at;
        }
        at = at + 1;
    }
    assert(all.take(size as int) =~= all);
    if count < 2 {
        return Err(ParseError::NotEnoughArguments);
    }
    proof {
        lemma_last_positional(all);
    }
    let removed = left.remove(last);
    assert(removed@ == all[last as int]);
    let output = match removed {
        Token::Positional { value, .. } => Output::classify(&value),
        Token::Opt(_) => {
            return Err(ParseError::NotEnoughArguments);
        },
    };
    let ghost rest = all.remove(last as int);
    assert(tokens_of(left@) =~= rest);
    let mut globals: Vec<Occurrence> = Vec::new();
    let mut defaults: Vec<Occurrence> = Vec::new();
    let mut objects: Vec<Object> = Vec::new();
    let mut pending: Option<(String, usize)> = None;
    let mut at: usize = 0;
    proof {
        assert(rest.take(0) =~= Seq::empty());
        assert(occurrences_of(globals@) =~= Seq::empty());
        assert(occurrences_of(defaults@) =~= Seq::empty());
        assert(objects_of(objects@) =~= Seq::empty());
    }
    while at < left.len()
        invariant
            at <= left@.len(),
            rest == tokens_of(left@),
            all == tokens_of(tokens@),
            positional_count(all) >= 2,
            0 <= last_positional(all) < all.len(),
            rest == all.remove(last_positional(all)),
            folded(rest.take(at as int)) == Ok::<Assembly, ParseErrorView>(
                Assembly {
                    globals: occurrences_of(globals@),
                    defaults: occurrences_of(defaults@),
                    objects: objects_of(objects@),
                    pending: match pending {
                        Some((keyword, index)) => Some((keyword@, index as int)),
                        None => None,
                    },
                },
            ),
        decreases left@.len() - at,
    {
        let ghost state = folded(rest.take(at as int))->Ok_0;
        proof {
            assert(rest.take(at + 1).drop_last() =~= rest.take(at as int));
            assert(rest.take(at + 1).last() == left@[at as int]@);
            assert(folded(rest.take(at + 1)) == step(state, left@[at as int]@));
        }
        match &left[at] {
            Token::Opt(occurrence) => {
                let ghost written = occurrence@;
                match occurrence.spec.scope {
                    Scope::Global => {
                        globals.push(occurrence.clone());
                        assert(occurrences_of(globals@) =~= state.globals.push(written));
                    },
                    Scope::Toc => {
                        let mut accepted: bool = false;
                        if objects.len() > 0 {
                            if let ObjectKind::Toc = &objects[objects.len() - 1].kind {
                                accepted = true;
                            }
                        }
                        assert(objects@.len() > 0 ==> objects_of(objects@).last() == objects@.last()@);
                        if !accepted {
                            let error = ParseError::WrongLocation {
                                as_written: occurrence.as_written.clone(),
                                belongs: Placement::TocObject,
                                index: occurrence.index,
                            };
                            proof {
                                lemma_refusal_sticks(rest, at + 1, error@);
                            }
                            return Err(error);
                        }
                        attach_option(&mut objects, occurrence);
                    },
                    Scope::Object => {
                        if objects.len() > 0 {
                            attach_option(&mut objects, occurrence);
                        } else {
                            defaults.push(occurrence.clone());
                            assert(occurrences_of(defaults@) =~= state.defaults.push(written));
                        }
                    },
                }
            },
            Token::Positional { value, index } => {
                let ghost before = objects_of(objects@);
                match pending {
                    Some((keyword, _)) => {
                        let input = Input::classify(value);
                        let kind = if same(&keyword, "cover") {
                            ObjectKind::Cover(input)
                        } else {
                            ObjectKind::Page(input)
                        };
                        let object = Object { kind, options: Vec::new() };
                        assert(object@.options =~= Seq::empty());
                        objects.push(object);
                        assert(objects_of(objects@) =~= before.push(object@));
                        pending = None;
                    },
                    None => {
                        if same(value, "page") || same(value, "cover") {
                            pending = Some((value.clone(), *index));
                        } else {
                            pending = None;
                            let kind = if same(value, "toc") {
                                ObjectKind::Toc
                            } else {
                                ObjectKind::Page(Input::classify(value))
                            };
                            let object = Object { kind, options: Vec::new() };
                            assert(object@.options =~= Seq::empty());
                            objects.push(object);
                            assert(objects_of(objects@) =~= before.push(object@));
                        }
                    },
                }
            },
        }
        at = at + 1;
    }
    assert(rest.take(rest.len() as int) =~= rest);
    match pending {
        Some((keyword, index)) => Err(ParseError::ObjectWithoutInput { keyword, index }),
        None => {
            if objects.len() == 0 {
                Err(ParseError::NotEnoughArguments)
            } else {
                Ok(Tokenized { globals, defaults, objects, output })
            }
        },
    }
}

/// Add an option to the last object.
fn attach_option(objects: &mut Vec<Object>, occurrence: &Occurrence)
    requires
        old(objects)@.len() > 0,
    ensures
        objects_of(final(objects)@) == attach(objects_of(old(objects)@), occurrence@),
{
    let ghost before = objects_of(objects@);
    match objects.pop() {
        Some(mut object) => {
            let ghost options = occurrences_of(object.options@);
            object.options.push(occurrence.clone());
            assert(occurrences_of(object.options@) =~= options.push(occurrence@));
            objects.push(object);
        },
        None => {},
    }
    assert(objects_of(objects@) =~= attach(before, occurrence@));
}

/// Take a command line apart.
pub fn tokenize(argv: Vec<String>) -> (outcome: Result<Tokenized, ParseError>)
    ensures
        match outcome {
            Ok(parsed) => tokenized(texts(argv@)) == Ok::<TokenizedView, ParseErrorView>(parsed@),
            Err(error) => tokenized(texts(argv@)) == Err::<TokenizedView, ParseErrorView>(error@),
        },
{
    match classify(&argv) {
        Ok(tokens) => assemble(tokens),
        Err(error) => Err(error),
    }
}

/// The first option of a list of tokens that is answered before any conversion.
pub open spec fn meta_in(tokens: Seq<TokenView>) -> Option<OptionSpec>
    decreases tokens.len(),
{
    if tokens.len() == 0 {
        None
    } else {
        match tokens[0] {
            TokenView::Opt(occurrence) => if occurrence.spec.support is Meta {
                Some(occurrence.spec)
            } else {
                meta_in(tokens.skip(1))
            },
            TokenView::Positional { .. } => meta_in(tokens.skip(1)),
        }
    }
}

/// The option that an argument spells by itself, where it is answered before
/// any conversion.
pub open spec fn meta_alone(arg: Seq<char>) -> Option<OptionSpec> {
    if is_option(arg) {
        match resolved(inline_split(arg).0, 0) {
            Ok(spec) => if spec.support is Meta {
                Some(spec)
            } else {
                None
            },
            Err(_) => None,
        }
    } else {
        None
    }
}

/// The first argument that spells such an option by itself.
pub open spec fn meta_among(args: Seq<Seq<char>>) -> Option<OptionSpec>
    decreases args.len(),
{
    if args.len() == 0 {
        None
    } else {
        match meta_alone(args[0]) {
            Some(spec) => Some(spec),
            None => meta_among(args.skip(1)),
        }
    }
}

/// What a command line asks to be told instead of converting. Where the line
/// can be read, a value is never mistaken for an option; where it cannot, each
/// argument is looked at by itself, so that a mistyped line can still ask for
/// help.
pub open spec fn asked_for(argv: Seq<Seq<char>>) -> Option<OptionSpec> {
    match classified(argv, 0, false) {
        Ok(tokens) => meta_in(tokens),
        Err(_) => meta_among(argv),
    }
}

/// The option that is to be answered instead of converting.
pub fn find_meta_option(args: &Vec<String>) -> (found: Option<OptionSpec>)
    ensures
        found == asked_for(texts(args@)),
{
    match classify(args) {
        Ok(tokens) => {
            let ghost all = tokens_of(tokens@);
            let mut at: usize = 0;
            assert(all.skip(0) =~= all);
            while at < tokens.len()
                invariant
                    at <= tokens@.len(),
                    all == tokens_of(tokens@),
                    asked_for(texts(args@)) == meta_in(all.skip(at as int)),
                decreases tokens@.len() - at,
            {
                assert(all.skip(at as int)[0] == tokens@[at as int]@);
                assert(all.skip(at as int).skip(1) =~= all.skip(at + 1));
                if let Token::Opt(occurrence) = &tokens[at] {
                    if occurrence.spec.support.is_meta() {
                        return Some(occurrence.spec);
                    }
                }
                at = at + 1;
            }
            None
        },
        Err(_) => {
            let ghost all = texts(args@);
            let mut at: usize = 0;
            assert(all.skip(0) =~= all);
            while at < args.len()
                invariant
                    at <= args@.len(),
                    all == texts(args@),
                    asked_for(all) == meta_among(all.skip(at as int)),
                decreases args@.len() - at,
            {
                assert(all.skip(at as int)[0] == args@[at as int]@);
                assert(all.skip(at as int).skip(1) =~= all.skip(at + 1));
                if looks_like_option(&args[at]) {
                    let (name, _) = split_inline_value(&args[at]);
                    if let Ok(spec) = resolve(&name, 0) {
                        if spec.support.is_meta() {
                            return Some(spec);
                        }
                    }
                }
                at = at + 1;
            }
            None
        },
    }
}

/// The options of a list of tokens, in order.
pub open spec fn options_in(tokens: Seq<TokenView>) -> Seq<OccurrenceView>
    decreases tokens.len(),
{
    if tokens.len() == 0 {
        Seq::empty()
    } else {
        match tokens.last() {
            TokenView::Opt(occurrence) => options_in(tokens.drop_last()).push(occurrence),
            TokenView::Positional { .. } => options_in(tokens.drop_last()),
        }
    }
}

/// The options of a list of objects, in order.
pub open spec fn object_options(objects: Seq<ObjectView>) -> Seq<OccurrenceView>
    decreases objects.len(),
{
    if objects.len() == 0 {
        Seq::empty()
    } else {
        object_options(objects.drop_last()) + objects.last().options
    }
}

/// Every option of a command line: those of the run, the defaults, and those of
/// each object.
pub open spec fn every_option(parsed: TokenizedView) -> Seq<OccurrenceView> {
    parsed.globals + parsed.defaults + object_options(parsed.objects)
}

/// Options with one more, behind those that are written no later.
pub open spec fn with_option(
    list: Seq<OccurrenceView>,
    occurrence: OccurrenceView,
) -> Seq<OccurrenceView>
    decreases list.len(),
{
    if list.len() == 0 || list.last().index <= occurrence.index {
        list.push(occurrence)
    } else {
        with_option(list.drop_last(), occurrence).push(list.last())
    }
}

/// Options in the order in which they are written.
pub open spec fn in_written_order(list: Seq<OccurrenceView>) -> Seq<OccurrenceView>
    decreases list.len(),
{
    if list.len() == 0 {
        Seq::empty()
    } else {
        with_option(in_written_order(list.drop_last()), list.last())
    }
}

/// Whether no option stands behind one that is written after it.
pub open spec fn rising(list: Seq<OccurrenceView>) -> bool {
    forall|i: int, j: int|
        0 <= i < j < list.len() ==> (#[trigger] list[i]).index <= (#[trigger] list[j]).index
}

proof fn lemma_with_option(list: Seq<OccurrenceView>, occurrence: OccurrenceView)
    requires
        rising(list),
    ensures
        rising(with_option(list, occurrence)),
        with_option(list, occurrence).to_multiset() == list.to_multiset().insert(occurrence),
        with_option(list, occurrence).len() == list.len() + 1,
        list.len() > 0 ==> with_option(list, occurrence).last().index == if list.last().index
            <= occurrence.index {
            occurrence.index
        } else {
            list.last().index
        },
        list.len() == 0 ==> with_option(list, occurrence).last() == occurrence,
    decreases list.len(),
{
    broadcast use vstd::seq_lib::group_to_multiset_ensures;

    if list.len() > 0 && list.last().index > occurrence.index {
        let rest = list.drop_last();
        assert(rising(rest));
        lemma_with_option(rest, occurrence);
        assert(rest.push(list.last()) =~= list);
        assert(with_option(list, occurrence).to_multiset() =~= list.to_multiset().insert(
            occurrence,
        ));
    }
}

/// Putting options in order loses none and adds none.
proof fn lemma_in_written_order(list: Seq<OccurrenceView>)
    ensures
        rising(in_written_order(list)),
        in_written_order(list).to_multiset() == list.to_multiset(),
        in_written_order(list).len() == list.len(),
    decreases list.len(),
{
    broadcast use vstd::seq_lib::group_to_multiset_ensures;

    if list.len() > 0 {
        lemma_in_written_order(list.drop_last());
        lemma_with_option(in_written_order(list.drop_last()), list.last());
        assert(list.drop_last().push(list.last()) =~= list);
    }
}

/// Put a copy of an occurrence where it belongs.
fn insert_copy(list: &mut Vec<Occurrence>, occurrence: &Occurrence)
    ensures
        occurrences_of(final(list)@) == with_option(occurrences_of(old(list)@), occurrence@),
{
    let ghost all = occurrences_of(list@);
    let ghost wanted = with_option(all, occurrence@);
    let mut at: usize = list.len();
    assert(all.take(at as int) =~= all);
    assert(wanted + all.skip(at as int) =~= wanted);
    while at > 0 && list[at - 1].index > occurrence.index
        invariant
            list@ == old(list)@,
            all == occurrences_of(list@),
            at <= all.len(),
            wanted == with_option(all.take(at as int), occurrence@) + all.skip(at as int),
        decreases at,
    {
        let ghost from = at as int;
        at = at - 1;
        assert(all.take(from).drop_last() =~= all.take(at as int));
        assert(all.take(from).last() == list@[at as int]@);
        assert(with_option(all.take(at as int), occurrence@).push(all[at as int]) + all.skip(from)
            =~= with_option(all.take(at as int), occurrence@) + all.skip(at as int));
    }
    assert(at > 0 ==> all.take(at as int).last() == list@[at - 1]@);
    assert(wanted == all.take(at as int).push(occurrence@) + all.skip(at as int));
    list.insert(at, occurrence.clone());
    assert(occurrences_of(list@) =~= wanted);
}

/// Copies of occurrences, at the end of a list.
fn append_copies(list: &mut Vec<Occurrence>, more: &Vec<Occurrence>)
    ensures
        occurrences_of(final(list)@) == occurrences_of(old(list)@) + occurrences_of(more@),
{
    let ghost start = occurrences_of(list@);
    let ghost all = occurrences_of(more@);
    let mut at: usize = 0;
    assert(start + all.take(0) =~= start);
    while at < more.len()
        invariant
            at <= more@.len(),
            all == occurrences_of(more@),
            start == occurrences_of(old(list)@),
            occurrences_of(list@) == start + all.take(at as int),
        decreases more@.len() - at,
    {
        let ghost before = occurrences_of(list@);
        list.push(more[at].clone());
        assert(occurrences_of(list@) =~= before.push(all[at as int]));
        assert(before.push(all[at as int]) =~= start + all.take(at + 1));
        at = at + 1;
    }
    assert(all.take(all.len() as int) =~= all);
}

impl Tokenized {
    /// Every option of the command line, in the order in which they are written.
    pub fn occurrences(&self) -> (list: Vec<Occurrence>)
        ensures
            occurrences_of(list@) == in_written_order(every_option(self@)),
            occurrences_of(list@).to_multiset() == every_option(self@).to_multiset(),
            rising(occurrences_of(list@)),
    {
        let gathered = self.gather();
        let ghost all = occurrences_of(gathered@);
        let size: usize = gathered.len();
        let mut list: Vec<Occurrence> = Vec::new();
        let mut at: usize = 0;
        assert(occurrences_of(list@) =~= Seq::empty());
        assert(all.take(0) =~= Seq::empty());
        while at < size
            invariant
                at <= size == gathered@.len(),
                all == occurrences_of(gathered@),
                occurrences_of(list@) == in_written_order(all.take(at as int)),
            decreases size - at,
        {
            assert(all.take(at + 1).drop_last() =~= all.take(at as int));
            assert(all.take(at + 1).last() == gathered@[at as int]@);
            insert_copy(&mut list, &gathered[at]);
            at = at + 1;
        }
        assert(all.take(size as int) =~= all);
        proof {
            lemma_in_written_order(all);
        }
        list
    }

    /// Every option of the command line, part by part.
    fn gather(&self) -> (list: Vec<Occurrence>)
        ensures
            occurrences_of(list@) == every_option(self@),
    {
        let mut list: Vec<Occurrence> = Vec::new();
        assert(occurrences_of(list@) =~= Seq::empty());
        append_copies(&mut list, &self.globals);
        append_copies(&mut list, &self.defaults);
        let ghost start = occurrences_of(self.globals@) + occurrences_of(self.defaults@);
        assert(occurrences_of(list@) =~= start);
        let ghost all = objects_of(self.objects@);
        let mut at: usize = 0;
        assert(all.take(0) =~= Seq::empty());
        assert(start + object_options(all.take(0)) =~= start);
        while at < self.objects.len()
            invariant
                at <= self.objects@.len(),
                all == objects_of(self.objects@),
                occurrences_of(list@) == start + object_options(all.take(at as int)),
            decreases self.objects@.len() - at,
        {
            assert(all.take(at + 1).drop_last() =~= all.take(at as int));
            assert(all.take(at + 1).last() == self.objects@[at as int]@);
            append_copies(&mut list, &self.objects[at].options);
            assert(occurrences_of(list@) =~= start + object_options(all.take(at + 1)));
            at = at + 1;
        }
        assert(all.take(all.len() as int) =~= all);
        list
    }
}

/// The options of what has been put together, by how often each occurs.
spec fn gathered(state: Assembly) -> Multiset<OccurrenceView> {
    state.globals.to_multiset().add(state.defaults.to_multiset()).add(
        object_options(state.objects).to_multiset(),
    )
}

proof fn lemma_attach(objects: Seq<ObjectView>, occurrence: OccurrenceView)
    requires
        objects.len() > 0,
    ensures
        object_options(attach(objects, occurrence)) == object_options(objects).push(occurrence),
{
    let after = attach(objects, occurrence);
    assert(after.drop_last() =~= objects.drop_last());
    assert(object_options(after) =~= object_options(objects).push(occurrence));
}

proof fn lemma_gathered(tokens: Seq<TokenView>)
    ensures
        match folded(tokens) {
            Ok(state) => gathered(state) =~= options_in(tokens).to_multiset(),
            Err(_) => true,
        },
    decreases tokens.len(),
{
    broadcast use vstd::seq_lib::group_to_multiset_ensures;

    if tokens.len() == 0 {
        assert(object_options(Seq::empty()) =~= Seq::<OccurrenceView>::empty());
    } else {
        lemma_gathered(tokens.drop_last());
        if let Ok(state) = folded(tokens.drop_last()) {
            match tokens.last() {
                TokenView::Opt(occurrence) => {
                    if state.objects.len() > 0 {
                        lemma_attach(state.objects, occurrence);
                    }
                },
                TokenView::Positional { value, index } => {
                    let after = positioned(state, value, index);
                    if after.objects.len() > state.objects.len() {
                        assert(after.objects.drop_last() =~= state.objects);
                        assert(object_options(after.objects) =~= object_options(state.objects));
                    }
                },
            }
        }
    }
}

proof fn lemma_options_without(tokens: Seq<TokenView>, at: int)
    requires
        0 <= at < tokens.len(),
        tokens[at] is Positional,
    ensures
        options_in(tokens.remove(at)) == options_in(tokens),
    decreases tokens.len(),
{
    if at == tokens.len() - 1 {
        assert(tokens.remove(at) =~= tokens.drop_last());
    } else {
        assert(tokens.remove(at).drop_last() =~= tokens.drop_last().remove(at));
        lemma_options_without(tokens.drop_last(), at);
    }
}

/// Every option that is written lands in exactly one place: among the options
/// of the run, among the defaults, or with one object.
pub proof fn law_every_option_lands_once(argv: Seq<Seq<char>>)
    requires
        tokenized(argv) is Ok,
    ensures
        every_option(tokenized(argv)->Ok_0).to_multiset() == options_in(
            classified(argv, 0, false)->Ok_0,
        ).to_multiset(),
{
    let tokens = classified(argv, 0, false)->Ok_0;
    let last = last_positional(tokens);
    lemma_last_positional(tokens);
    lemma_options_without(tokens, last);
    lemma_gathered(tokens.remove(last));
    let parsed = tokenized(argv)->Ok_0;
    vstd::seq_lib::lemma_multiset_commutative(parsed.globals, parsed.defaults);
    vstd::seq_lib::lemma_multiset_commutative(
        parsed.globals + parsed.defaults,
        object_options(parsed.objects),
    );
}

/// Lists that rise and hold the same options are the same, where no two options
/// are written in one place.
proof fn lemma_one_order(list: Seq<OccurrenceView>, other: Seq<OccurrenceView>)
    requires
        list.to_multiset() == other.to_multiset(),
        rising(list),
        forall|i: int, j: int|
            0 <= i < j < other.len() ==> (#[trigger] other[i]).index < (#[trigger] other[j]).index,
    ensures
        list == other,
    decreases other.len(),
{
    broadcast use vstd::seq_lib::group_to_multiset_ensures;

    assert(list.len() == list.to_multiset().len());
    assert(other.len() == other.to_multiset().len());
    if other.len() > 0 {
        let (a, b) = (list.last(), other.last());
        assert(list[list.len() - 1] == a);
        assert(list.contains(a) && other.contains(b));
        assert(list.to_multiset().contains(a));
        assert(other.to_multiset().contains(b));
        assert(other.contains(a));
        assert(list.contains(b));
        let i = choose|i: int| 0 <= i < other.len() && other[i] == a;
        let j = choose|j: int| 0 <= j < list.len() && list[j] == b;
        assert(list[j].index <= a.index);
        assert(i == other.len() - 1);
        assert(list.drop_last().push(a) =~= list);
        assert(other.drop_last().push(b) =~= other);
        assert(list.drop_last().to_multiset() =~= list.to_multiset().remove(a));
        assert(other.drop_last().to_multiset() =~= other.to_multiset().remove(b));
        lemma_one_order(list.drop_last(), other.drop_last());
    } else {
        assert(list =~= other);
    }
}

proof fn lemma_options_ahead(first: TokenView, rest: Seq<TokenView>)
    ensures
        options_in(seq![first] + rest) == options_in(seq![first]) + options_in(rest),
    decreases rest.len(),
{
    if rest.len() == 0 {
        assert(seq![first] + rest =~= seq![first]);
        assert(options_in(seq![first]) + options_in(rest) =~= options_in(seq![first]));
    } else {
        assert((seq![first] + rest).drop_last() =~= seq![first] + rest.drop_last());
        lemma_options_ahead(first, rest.drop_last());
        assert(options_in(seq![first] + rest) =~= options_in(seq![first]) + options_in(rest));
    }
}

/// The options of arguments from a position on stand in the order in which they
/// are written, no two of them in one place.
proof fn lemma_options_rise(argv: Seq<Seq<char>>, from: int, ended: bool)
    requires
        0 <= from,
        classified(argv, from, ended) is Ok,
    ensures
        ({
            let options = options_in(classified(argv, from, ended)->Ok_0);
            &&& forall|i: int| 0 <= i < options.len() ==> from <= (#[trigger] options[i]).index
            &&& forall|i: int, j: int|
                0 <= i < j < options.len() ==> (#[trigger] options[i]).index < (
                #[trigger] options[j]).index
        }),
    decreases argv.len() - from,
{
    if from < argv.len() {
        if ended || !is_option(argv[from]) {
            let rest = classified(argv, from + 1, ended)->Ok_0;
            let first = TokenView::Positional { value: argv[from], index: from };
            lemma_options_ahead(first, rest);
            reveal_with_fuel(options_in, 2);
            assert(options_in(seq![first]) =~= Seq::empty());
            assert(options_in(seq![first]) + options_in(rest) =~= options_in(rest));
            lemma_options_rise(argv, from + 1, ended);
        } else if argv[from] == "--"@ {
            lemma_options_rise(argv, from + 1, true);
        } else {
            let occurrence = option_at(argv, from)->Ok_0;
            let next = from + width_at(argv, occurrence);
            let rest = classified(argv, next, ended)->Ok_0;
            let first = TokenView::Opt(occurrence);
            lemma_options_ahead(first, rest);
            reveal_with_fuel(options_in, 2);
            assert(options_in(seq![first]) =~= seq![occurrence]);
            lemma_options_rise(argv, next, ended);
            let options = seq![occurrence] + options_in(rest);
            assert forall|i: int, j: int| 0 <= i < j < options.len() implies (
            #[trigger] options[i]).index < (#[trigger] options[j]).index by {
                assert(options[j] == options_in(rest)[j - 1]);
                if i > 0 {
                    assert(options[i] == options_in(rest)[i - 1]);
                }
            }
        }
    }
}

/// The options of a command line, wherever each of them landed, are read back in
/// the order in which they were written.
pub proof fn law_options_in_the_order_written(argv: Seq<Seq<char>>)
    requires
        tokenized(argv) is Ok,
    ensures
        in_written_order(every_option(tokenized(argv)->Ok_0)) == options_in(
            classified(argv, 0, false)->Ok_0,
        ),
{
    let all = every_option(tokenized(argv)->Ok_0);
    lemma_in_written_order(all);
    law_every_option_lands_once(argv);
    lemma_options_rise(argv, 0, false);
    lemma_one_order(in_written_order(all), options_in(classified(argv, 0, false)->Ok_0));
}

/// The last positional argument is the output, and a command line that is
/// understood has at least one object.
pub proof fn law_output_is_the_last_positional(argv: Seq<Seq<char>>)
    requires
        tokenized(argv) is Ok,
    ensures
        ({
            let tokens = classified(argv, 0, false)->Ok_0;
            let last = last_positional(tokens);
            let parsed = tokenized(argv)->Ok_0;
            &&& 0 <= last < tokens.len()
            &&& tokens[last] is Positional
            &&& forall|i: int|
                last < i < tokens.len() ==> !(#[trigger] tokens[i] is Positional)
            &&& parsed.output == output_of(tokens[last]->value)
            &&& parsed.objects.len() > 0
        }),
{
    lemma_last_positional(classified(argv, 0, false)->Ok_0);
}

/// The position that an option carries is its own: the argument there begins
/// with the name as it was written, and the option has as many values as it
/// takes. A value is never where an option is reported to be.
pub proof fn law_option_position(argv: Seq<Seq<char>>, from: int, ended: bool, at: int)
    requires
        0 <= from,
        classified(argv, from, ended) is Ok,
        0 <= at < classified(argv, from, ended)->Ok_0.len(),
        classified(argv, from, ended)->Ok_0[at] is Opt,
    ensures
        ({
            let occurrence = classified(argv, from, ended)->Ok_0[at]->Opt_0;
            &&& from <= occurrence.index < argv.len()
            &&& is_option(argv[occurrence.index])
            &&& option_at(argv, occurrence.index) == Ok::<OccurrenceView, ParseErrorView>(
                occurrence,
            )
            &&& occurrence.as_written.is_prefix_of(argv[occurrence.index])
            &&& occurrence.values.len() == occurrence.spec.arity_of()
        }),
    decreases argv.len() - from,
{
    let tokens = classified(argv, from, ended)->Ok_0;
    if ended || !is_option(argv[from]) {
        let rest = classified(argv, from + 1, ended)->Ok_0;
        assert(tokens[0] is Positional);
        assert(tokens[at] == rest[at - 1]);
        law_option_position(argv, from + 1, ended, at - 1);
    } else if argv[from] == "--"@ {
        law_option_position(argv, from + 1, true, at);
    } else {
        let occurrence = option_at(argv, from)->Ok_0;
        let next = from + width_at(argv, occurrence);
        let rest = classified(argv, next, ended)->Ok_0;
        if at == 0 {
            let (name, _) = inline_split(argv[from]);
            if let Some(position) = find(argv[from], '=') {
                let chosen = choose|i: int| crate::text::first_of(argv[from], '=', '=', i);
                assert(crate::text::first_of(argv[from], '=', '=', chosen));
                assert(name =~= argv[from].subrange(0, name.len() as int));
            } else {
                assert(name =~= argv[from].subrange(0, name.len() as int));
            }
        } else {
            assert(tokens[at] == rest[at - 1]);
            law_option_position(argv, next, ended, at - 1);
        }
    }
}

/// What was found is an option among the tokens that is answered before any
/// conversion; where nothing was found, there is none.
pub open spec fn requested_by(tokens: Seq<TokenView>, found: Option<OptionSpec>) -> bool {
    match found {
        Some(spec) => exists|i: int|
            0 <= i < tokens.len() && (#[trigger] tokens[i]) is Opt && tokens[i]->Opt_0.spec == spec
                && spec.support is Meta,
        None => forall|i: int|
            0 <= i < tokens.len() && (#[trigger] tokens[i]) is Opt ==> !(
            tokens[i]->Opt_0.spec.support is Meta),
    }
}

/// Where a command line can be read, what it asks to be told is an option of
/// its own, never a value of another.
pub proof fn law_a_value_is_no_request(argv: Seq<Seq<char>>)
    requires
        classified(argv, 0, false) is Ok,
    ensures
        requested_by(classified(argv, 0, false)->Ok_0, asked_for(argv)),
{
    lemma_meta_in(classified(argv, 0, false)->Ok_0);
}

proof fn lemma_meta_in(tokens: Seq<TokenView>)
    ensures
        requested_by(tokens, meta_in(tokens)),
    decreases tokens.len(),
{
    if tokens.len() > 0 {
        let rest = tokens.skip(1);
        lemma_meta_in(rest);
        let own = tokens[0] is Opt && tokens[0]->Opt_0.spec.support is Meta;
        if !own {
            match meta_in(rest) {
                Some(spec) => {
                    let i = choose|i: int|
                        0 <= i < rest.len() && (#[trigger] rest[i]) is Opt && rest[i]->Opt_0.spec
                            == spec && spec.support is Meta;
                    assert(tokens[i + 1] == rest[i]);
                },
                None => {
                    assert forall|i: int|
                        0 <= i < tokens.len() && (#[trigger] tokens[i]) is Opt implies !(
                    tokens[i]->Opt_0.spec.support is Meta) by {
                        if i > 0 {
                            assert(rest[i - 1] == tokens[i]);
                        }
                    }
                },
            }
        }
    }
}

/// A position once an argument is put in behind another.
pub open spec fn later(index: int, at: int) -> int {
    if index > at {
        index + 1
    } else {
        index
    }
}

/// An option once an argument is put in behind another.
pub open spec fn later_option(occurrence: OccurrenceView, at: int) -> OccurrenceView {
    OccurrenceView { index: later(occurrence.index, at), ..occurrence }
}

/// Options once an argument is put in behind another.
pub open spec fn later_options(list: Seq<OccurrenceView>, at: int) -> Seq<OccurrenceView> {
    list.map_values(|occurrence: OccurrenceView| later_option(occurrence, at))
}

/// Objects once an argument is put in behind another.
pub open spec fn later_objects(objects: Seq<ObjectView>, at: int) -> Seq<ObjectView> {
    objects.map_values(
        |object: ObjectView| ObjectView { options: later_options(object.options, at), ..object },
    )
}

/// What is wrong with a command line once an argument is put in behind another.
pub open spec fn later_error(error: ParseErrorView, at: int) -> ParseErrorView {
    match error {
        ParseErrorView::UnknownOption { as_written, index } => ParseErrorView::UnknownOption {
            as_written,
            index: later(index, at),
        },
        ParseErrorView::MissingValues { as_written, wanted, got, index } =>
            ParseErrorView::MissingValues { as_written, wanted, got, index: later(index, at) },
        ParseErrorView::UnexpectedValue { as_written, index } => ParseErrorView::UnexpectedValue {
            as_written,
            index: later(index, at),
        },
        ParseErrorView::InlineValueNotAllowed { as_written, wanted, index } =>
            ParseErrorView::InlineValueNotAllowed { as_written, wanted, index: later(index, at) },
        ParseErrorView::ObjectWithoutInput { keyword, index } =>
            ParseErrorView::ObjectWithoutInput { keyword, index: later(index, at) },
        ParseErrorView::NotEnoughArguments => ParseErrorView::NotEnoughArguments,
        ParseErrorView::WrongLocation { as_written, belongs, index } =>
            ParseErrorView::WrongLocation { as_written, belongs, index: later(index, at) },
    }
}

/// A command line, or what is wrong with it, once an argument is put in behind
/// another.
pub open spec fn later_line(
    outcome: Result<TokenizedView, ParseErrorView>,
    at: int,
) -> Result<TokenizedView, ParseErrorView> {
    match outcome {
        Ok(parsed) => Ok(
            TokenizedView {
                globals: later_options(parsed.globals, at),
                defaults: later_options(parsed.defaults, at),
                objects: later_objects(parsed.objects, at),
                output: parsed.output,
            },
        ),
        Err(error) => Err(later_error(error, at)),
    }
}

/// Whether the argument at a position is read as an option: it is no value of
/// another, and does not stand behind `--`.
pub open spec fn read_as_option(argv: Seq<Seq<char>>, from: int, at: int) -> bool
    decreases argv.len() - from,
{
    if from < 0 || from > at || at >= argv.len() {
        false
    } else if !is_option(argv[from]) {
        from < at && read_as_option(argv, from + 1, at)
    } else if argv[from] == "--"@ {
        false
    } else {
        from == at || match option_at(argv, from) {
            Err(_) => false,
            Ok(occurrence) => read_as_option(argv, from + width_at(argv, occurrence), at),
        }
    }
}

/// An argument in two: an option, and its value behind it.
pub open spec fn parted(
    argv: Seq<Seq<char>>,
    at: int,
    name: Seq<char>,
    value: Seq<char>,
) -> Seq<Seq<char>> {
    argv.update(at, name).insert(at + 1, value)
}

spec fn later_token(token: TokenView, at: int) -> TokenView {
    match token {
        TokenView::Opt(occurrence) => TokenView::Opt(later_option(occurrence, at)),
        TokenView::Positional { value, index } => TokenView::Positional {
            value,
            index: later(index, at),
        },
    }
}

spec fn later_tokens(tokens: Seq<TokenView>, at: int) -> Seq<TokenView> {
    tokens.map_values(|token: TokenView| later_token(token, at))
}

spec fn later_reading(
    outcome: Result<Seq<TokenView>, ParseErrorView>,
    at: int,
) -> Result<Seq<TokenView>, ParseErrorView> {
    match outcome {
        Ok(tokens) => Ok(later_tokens(tokens, at)),
        Err(error) => Err(later_error(error, at)),
    }
}

proof fn lemma_later_ahead(
    first: TokenView,
    rest: Result<Seq<TokenView>, ParseErrorView>,
    at: int,
)
    ensures
        later_reading(ahead_of(seq![first], rest), at) == ahead_of(
            seq![later_token(first, at)],
            later_reading(rest, at),
        ),
{
    if let Ok(tokens) = rest {
        assert(later_tokens(seq![first] + tokens, at) =~= seq![later_token(first, at)]
            + later_tokens(tokens, at));
    }
}

/// What stands behind the argument that was parted is read as before, one
/// position on.
proof fn lemma_behind(
    argv: Seq<Seq<char>>,
    at: int,
    name: Seq<char>,
    value: Seq<char>,
    from: int,
    ended: bool,
)
    requires
        0 <= at < from,
        at < argv.len(),
    ensures
        classified(parted(argv, at, name, value), from + 1, ended) == later_reading(
            classified(argv, from, ended),
            at,
        ),
    decreases argv.len() - from,
{
    let split = parted(argv, at, name, value);
    assert(split.len() == argv.len() + 1);
    if from >= argv.len() {
        assert(later_tokens(Seq::empty(), at) =~= Seq::empty());
    } else {
        assert(split[from + 1] == argv[from]);
        if ended || !is_option(argv[from]) {
            lemma_behind(argv, at, name, value, from + 1, ended);
            lemma_later_ahead(
                TokenView::Positional { value: argv[from], index: from },
                classified(argv, from + 1, ended),
                at,
            );
        } else if argv[from] == "--"@ {
            lemma_behind(argv, at, name, value, from + 1, true);
        } else {
            let before = option_at(argv, from);
            let after = option_at(split, from + 1);
            if let Ok(occurrence) = before {
                let wanted = occurrence.spec.arity_of() as int;
                if inline_split(argv[from]).1 is None {
                    assert(split.subrange(from + 2, from + 2 + wanted) =~= argv.subrange(
                        from + 1,
                        from + 1 + wanted,
                    ));
                }
                assert(after == Ok::<OccurrenceView, ParseErrorView>(later_option(occurrence, at)));
                let next = from + width_at(argv, occurrence);
                lemma_behind(argv, at, name, value, next, ended);
                lemma_later_ahead(
                    TokenView::Opt(occurrence),
                    classified(argv, next, ended),
                    at,
                );
            }
        }
    }
}

/// A name with a value behind an equals sign is parted there.
proof fn lemma_inline_split(name: Seq<char>, value: Seq<char>)
    requires
        !name.contains('='),
    ensures
        inline_split(name + "="@ + value) == (name, Some(value)),
        inline_split(name) == (name, None::<Seq<char>>),
{
    let arg = name + "="@ + value;
    reveal_strlit("=");
    assert(crate::text::first_of(arg, '=', '=', name.len() as int)) by {
        assert forall|i: int| 0 <= i < name.len() implies arg[i] != '=' by {
            assert(arg[i] == name[i]);
            assert(name.contains(name[i]));
        }
    }
    crate::text::lemma_find(arg, '=', '=', name.len() as int);
    assert(arg.take(name.len() as int) =~= name);
    assert(arg.skip((name.len() + 1) as int) =~= value);
    assert forall|i: int| 0 <= i < name.len() implies name[i] != '=' by {
        assert(name.contains(name[i]));
    }
    crate::text::lemma_find_none(name, '=', '=');
}

/// No option is written as dashes alone.
proof fn lemma_dashes_name_nothing(name: Seq<char>, index: int)
    requires
        resolved(name, index) is Ok,
    ensures
        name != "--"@,
        name != "-"@,
{
    reveal_strlit("-");
    reveal_strlit("--");
    if name == "--"@ {
        assert(without_prefix(name, "--"@) == Some(name.skip(2)));
        assert(name.skip(2) =~= Seq::empty());
        law_lookup_long(table(), Seq::empty());
        if let Some(spec) = long_in(table(), Seq::empty()) {
            let i = choose|i: int|
                0 <= i < table().len() && #[trigger] table()[i] == spec && spec.long@
                    == Seq::<char>::empty();
            law_long_names_are_plain(i);
        }
    }
    if name == "-"@ {
        assert(name.skip(1) =~= Seq::empty());
        if "--"@.is_prefix_of(name) {
        }
    }
}

proof fn lemma_parted(
    argv: Seq<Seq<char>>,
    at: int,
    name: Seq<char>,
    value: Seq<char>,
    from: int,
)
    requires
        0 <= from <= at < argv.len(),
        argv[at] == name + "="@ + value,
        !name.contains('='),
        resolved(name, at) is Ok,
        resolved(name, at)->Ok_0.arity_of() == 1,
        read_as_option(argv, from, at),
    ensures
        classified(parted(argv, at, name, value), from, false) == later_reading(
            classified(argv, from, false),
            at,
        ),
    decreases at - from,
{
    let split = parted(argv, at, name, value);
    if from == at {
        lemma_inline_split(name, value);
        lemma_dashes_name_nothing(name, at);
        assert(split[at] == name);
        assert(split[at + 1] == value);
        assert(split.subrange(at + 1, at + 2) =~= seq![value]);
        reveal_strlit("-");
        reveal_strlit("--");
        reveal_strlit("=");
        assert(name.len() > 0) by {
            if name.len() == 0 {
                assert(argv[at][0] == '=');
            }
        }
        assert(argv[at][0] == name[0]);
        assert(is_option(name));
        let occurrence = option_at(argv, at)->Ok_0;
        assert(option_at(split, at) == Ok::<OccurrenceView, ParseErrorView>(occurrence));
        lemma_behind(argv, at, name, value, at + 1, false);
        lemma_later_ahead(
            TokenView::Opt(occurrence),
            classified(argv, at + 1, false),
            at,
        );
    } else {
        assert(split[from] == argv[from]);
        if !is_option(argv[from]) {
            lemma_parted(argv, at, name, value, from + 1);
            lemma_later_ahead(
                TokenView::Positional { value: argv[from], index: from },
                classified(argv, from + 1, false),
                at,
            );
        } else {
            let occurrence = option_at(argv, from)->Ok_0;
            let next = from + width_at(argv, occurrence);
            let wanted = occurrence.spec.arity_of() as int;
            assert(read_as_option(argv, next, at));
            assert(next <= at);
            if inline_split(argv[from]).1 is None {
                assert(split.subrange(from + 1, from + 1 + wanted) =~= argv.subrange(
                    from + 1,
                    from + 1 + wanted,
                ));
            }
            assert(option_at(split, from) == Ok::<OccurrenceView, ParseErrorView>(occurrence));
            lemma_parted(argv, at, name, value, next);
            lemma_later_ahead(
                TokenView::Opt(occurrence),
                classified(argv, next, false),
                at,
            );
        }
    }
}

spec fn later_state(state: Assembly, at: int) -> Assembly {
    Assembly {
        globals: later_options(state.globals, at),
        defaults: later_options(state.defaults, at),
        objects: later_objects(state.objects, at),
        pending: match state.pending {
            Some((keyword, index)) => Some((keyword, later(index, at))),
            None => None,
        },
    }
}

spec fn later_assembly(
    outcome: Result<Assembly, ParseErrorView>,
    at: int,
) -> Result<Assembly, ParseErrorView> {
    match outcome {
        Ok(state) => Ok(later_state(state, at)),
        Err(error) => Err(later_error(error, at)),
    }
}

proof fn lemma_later_step(state: Assembly, token: TokenView, at: int)
    ensures
        step(later_state(state, at), later_token(token, at)) == later_assembly(
            step(state, token),
            at,
        ),
{
    let moved = later_state(state, at);
    match token {
        TokenView::Opt(occurrence) => {
            let own = later_option(occurrence, at);
            assert(later_options(state.globals.push(occurrence), at) =~= moved.globals.push(own));
            assert(later_options(state.defaults.push(occurrence), at) =~= moved.defaults.push(own));
            if state.objects.len() > 0 {
                assert(later_options(state.objects.last().options.push(occurrence), at)
                    =~= moved.objects.last().options.push(own));
                assert(later_objects(attach(state.objects, occurrence), at) =~= attach(
                    moved.objects,
                    own,
                ));
            }
        },
        TokenView::Positional { value, index } => {
            let after = positioned(state, value, index);
            let also = positioned(moved, value, later(index, at));
            assert(later_options(Seq::empty(), at) =~= Seq::empty());
            assert(later_objects(after.objects, at) =~= also.objects);
        },
    }
}

proof fn lemma_later_folded(tokens: Seq<TokenView>, at: int)
    ensures
        folded(later_tokens(tokens, at)) == later_assembly(folded(tokens), at),
        positional_count(later_tokens(tokens, at)) == positional_count(tokens),
        last_positional(later_tokens(tokens, at)) == last_positional(tokens),
    decreases tokens.len(),
{
    if tokens.len() == 0 {
        assert(later_options(Seq::empty(), at) =~= Seq::empty());
        assert(later_objects(Seq::empty(), at) =~= Seq::empty());
    } else {
        assert(later_tokens(tokens, at).drop_last() =~= later_tokens(tokens.drop_last(), at));
        assert(later_tokens(tokens, at).last() == later_token(tokens.last(), at));
        lemma_later_folded(tokens.drop_last(), at);
        if let Ok(state) = folded(tokens.drop_last()) {
            lemma_later_step(state, tokens.last(), at);
        }
    }
}

/// An option with its value behind an equals sign is the same as the option with
/// its value in an argument of its own: the two command lines are taken apart the
/// same way, or refused the same way, but that everything written later stands one
/// position on.
pub proof fn law_an_inline_value_is_a_value(
    argv: Seq<Seq<char>>,
    at: int,
    name: Seq<char>,
    value: Seq<char>,
)
    requires
        0 <= at < argv.len(),
        argv[at] == name + "="@ + value,
        !name.contains('='),
        resolved(name, at) is Ok,
        resolved(name, at)->Ok_0.arity_of() == 1,
        read_as_option(argv, 0, at),
    ensures
        tokenized(parted(argv, at, name, value)) == later_line(tokenized(argv), at),
{
    lemma_parted(argv, at, name, value, 0);
    if let Ok(tokens) = classified(argv, 0, false) {
        let moved = later_tokens(tokens, at);
        lemma_later_folded(tokens, at);
        if positional_count(tokens) >= 2 {
            let last = last_positional(tokens);
            lemma_last_positional(tokens);
            assert(moved.remove(last) =~= later_tokens(tokens.remove(last), at));
            lemma_later_folded(tokens.remove(last), at);
            assert(moved[last] == later_token(tokens[last], at));
        }
    }
}

/// Whether an option among arguments lacks values that would have to follow them.
pub open spec fn waits_for_values(argv: Seq<Seq<char>>, from: int) -> bool
    decreases argv.len() - from,
{
    if from < 0 || from >= argv.len() {
        false
    } else if !is_option(argv[from]) || argv[from] == "--"@ {
        waits_for_values(argv, from + 1)
    } else {
        match option_at(argv, from) {
            Err(error) => error is MissingValues,
            Ok(occurrence) => waits_for_values(argv, from + width_at(argv, occurrence)),
        }
    }
}

/// Arguments that wait for nothing are read alike whatever follows them: up to
/// their end, or up to what is wrong with them.
proof fn lemma_ahead(
    ahead: Seq<Seq<char>>,
    behind: Seq<Seq<char>>,
    other: Seq<Seq<char>>,
    from: int,
)
    requires
        0 <= from <= ahead.len(),
        !ahead.contains("--"@),
        !waits_for_values(ahead, from),
        behind.len() > 0,
        is_option(behind[0]),
        behind[0] != "--"@,
    ensures
        read_as_option(ahead + behind, from, ahead.len() as int) || {
            &&& classified(ahead + behind, from, false) is Err
            &&& classified(ahead + other, from, false) == classified(ahead + behind, from, false)
            &&& later_reading(classified(ahead + behind, from, false), ahead.len() as int)
                == classified(ahead + behind, from, false)
        },
    decreases ahead.len() - from,
{
    let (one, two) = (ahead + behind, ahead + other);
    if from == ahead.len() {
        assert(one[from] == behind[0]);
    } else {
        assert(one[from] == ahead[from]);
        assert(two[from] == ahead[from]);
        assert(ahead.contains(ahead[from]));
        if !is_option(ahead[from]) {
            lemma_ahead(ahead, behind, other, from + 1);
        } else if let Ok(occurrence) = option_at(ahead, from) {
            let wanted = occurrence.spec.arity_of() as int;
            if inline_split(ahead[from]).1 is None {
                assert(one.subrange(from + 1, from + 1 + wanted) =~= ahead.subrange(
                    from + 1,
                    from + 1 + wanted,
                ));
                assert(two.subrange(from + 1, from + 1 + wanted) =~= ahead.subrange(
                    from + 1,
                    from + 1 + wanted,
                ));
            }
            assert(option_at(one, from) == option_at(ahead, from));
            assert(option_at(two, from) == option_at(ahead, from));
            lemma_ahead(ahead, behind, other, from + width_at(ahead, occurrence));
        } else {
            assert(option_at(one, from) == option_at(ahead, from));
            assert(option_at(two, from) == option_at(ahead, from));
        }
    }
}

/// `--option=value` and `--option value` lead to the same command line, or to the
/// same refusal, for every option that takes one value: but that what is written
/// later stands one position on.
pub proof fn law_both_forms_of_a_value(
    ahead: Seq<Seq<char>>,
    behind: Seq<Seq<char>>,
    row: int,
    value: Seq<char>,
)
    requires
        0 <= row < table().len(),
        table()[row].arity_of() == 1,
        !ahead.contains("--"@),
        !waits_for_values(ahead, 0),
    ensures
        ({
            let name = "--"@ + table()[row].long@;
            tokenized(ahead + seq![name, value] + behind) == later_line(
                tokenized(ahead + seq![name + "="@ + value] + behind),
                ahead.len() as int,
            )
        }),
{
    let long = table()[row].long@;
    let name = "--"@ + long;
    let at = ahead.len() as int;
    let written = name + "="@ + value;
    let one = seq![written] + behind;
    let two = seq![name, value] + behind;
    let argv = ahead + seq![written] + behind;
    reveal_strlit("--");
    reveal_strlit("-");
    reveal_strlit("=");
    law_long_names_are_plain(row);
    law_lookup_long_finds_each_option(row);
    assert("--"@.is_prefix_of(name)) by {
        assert(name.subrange(0, 2) =~= "--"@);
    }
    assert(name.skip(2) =~= long);
    assert(resolved(name, at) == Ok::<OptionSpec, ParseErrorView>(table()[row]));
    assert(!name.contains('=')) by {
        if name.contains('=') {
            let i = choose|i: int| 0 <= i < name.len() && name[i] == '=';
            if i >= 2 {
                assert(name[i] == long[i - 2]);
            }
        }
    }
    assert(written[0] == '-');
    assert(written.len() > 2);
    assert(argv =~= ahead + one);
    assert(ahead + seq![name, value] + behind =~= ahead + two);
    lemma_ahead(ahead, one, two, 0);
    if read_as_option(argv, 0, at) {
        assert(argv[at] == written);
        assert(parted(argv, at, name, value) =~= ahead + two);
        law_an_inline_value_is_a_value(argv, at, name, value);
    }
}

} // verus!
