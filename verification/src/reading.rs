//! How a command line is read.
//!
//! What is said here goes argument by argument: which arguments are options, which
//! values they take with them, what the others stand for, and where each option goes.

use crate::document::{input_of, output_of};
use crate::table::{
    law_long_names_are_plain, law_lookup_long, law_lookup_long_finds_each_option,
    law_lookup_short_finds_each_option, table, OptionSpec, Scope,
};
use crate::text::{decimal, first_of, lemma_find, lemma_find_none};
use crate::tokenizer::{
    asked_for, assembled, classified, folded, is_option, last_positional, meta_among, meta_in,
    options_in, parse_error_message, positional_count, resolved, Assembly, ObjectKindView,
    ObjectView, OccurrenceView, ParseErrorView, Placement, TokenView, TokenizedView,
};
use vstd::prelude::*;

verus! {

/// One token, and what follows it.
pub open spec fn followed_by(
    token: TokenView,
    rest: Result<Seq<TokenView>, ParseErrorView>,
) -> Result<Seq<TokenView>, ParseErrorView> {
    match rest {
        Ok(tokens) => Ok(seq![token] + tokens),
        Err(error) => Err(error),
    }
}

/// Every option is found by its long name behind two dashes, and by its letter behind
/// one.
pub proof fn law_an_option_is_found_by_its_names(row: int, index: int)
    requires
        0 <= row < table().len(),
    ensures
        resolved("--"@ + table()[row].long@, index) == Ok::<OptionSpec, ParseErrorView>(
            table()[row],
        ),
        table()[row].short is Some ==> resolved("-"@ + seq![table()[row].short->0], index) == Ok::<
            OptionSpec,
            ParseErrorView,
        >(table()[row]),
{
    reveal_strlit("-");
    reveal_strlit("--");
    law_lookup_long_finds_each_option(row);
    let name = "--"@ + table()[row].long@;
    assert("--"@.is_prefix_of(name));
    assert(name.skip(2) =~= table()[row].long@);
    if let Some(letter) = table()[row].short {
        law_lookup_short_finds_each_option(letter);
        let short = "-"@ + seq![letter];
        assert(short.skip(1) =~= seq![letter]);
        assert("-"@.is_prefix_of(short));
        if letter == '-' {
            lemma_no_letter_is_a_dash(row);
        }
        assert(!"--"@.is_prefix_of(short)) by {
            assert(short[1] == letter);
            assert("--"@[1] == '-');
        }
    }
}

proof fn lemma_no_letter_is_a_dash(row: int)
    requires
        0 <= row < table().len(),
    ensures
        table()[row].short != Some('-'),
{
    reveal(crate::table::general_table);
    reveal(crate::table::outline_table);
    reveal(crate::table::extension_table);
    reveal(crate::table::page_table);
    reveal(crate::table::header_footer_table);
    reveal(crate::table::toc_table);
}

/// A name that no option has is refused as it was written.
pub proof fn law_an_unknown_name_is_refused(long: Seq<char>, letter: char, index: int)
    ensures
        (forall|row: int| 0 <= row < table().len() ==> (#[trigger] table()[row]).long@ != long)
            ==> resolved("--"@ + long, index) == Err::<OptionSpec, ParseErrorView>(
            ParseErrorView::UnknownOption { as_written: "--"@ + long, index },
        ),
        letter != '-' && (forall|row: int|
            0 <= row < table().len() ==> (#[trigger] table()[row]).short != Some(letter))
            ==> resolved("-"@ + seq![letter], index) == Err::<OptionSpec, ParseErrorView>(
            ParseErrorView::UnknownOption { as_written: "-"@ + seq![letter], index },
        ),
        long.len() > 1 && long[0] != '-' ==> resolved("-"@ + long, index) == Err::<
            OptionSpec,
            ParseErrorView,
        >(ParseErrorView::UnknownOption { as_written: "-"@ + long, index }),
{
    reveal_strlit("-");
    reveal_strlit("--");
    law_lookup_long(table(), long);
    law_lookup_short_finds_each_option(letter);
    let name = "--"@ + long;
    assert("--"@.is_prefix_of(name));
    assert(name.skip(2) =~= long);
    let short = "-"@ + seq![letter];
    assert(short.skip(1) =~= seq![letter]);
    assert("-"@.is_prefix_of(short));
    assert(short[1] == letter);
    assert("--"@[1] == '-');
    let bundle = "-"@ + long;
    assert("-"@.is_prefix_of(bundle));
    assert(bundle.skip(1) =~= long);
    if long.len() > 0 {
        assert(bundle[1] == long[0]);
    }
}

/// An argument that does not begin with a dash stands for itself, and so does a lone
/// dash.
pub proof fn law_a_plain_argument_stands_for_itself(
    argv: Seq<Seq<char>>,
    index: int,
    ended: bool,
)
    requires
        0 <= index < argv.len(),
        argv[index].len() == 0 || argv[index][0] != '-' || argv[index] == "-"@,
    ensures
        classified(argv, index, ended) == followed_by(
            TokenView::Positional { value: argv[index], index },
            classified(argv, index + 1, ended),
        ),
{
}

/// Behind two dashes every argument stands for itself, whatever it looks like.
pub proof fn law_two_dashes_end_the_options(argv: Seq<Seq<char>>, index: int)
    requires
        0 <= index <= argv.len(),
    ensures
        classified(argv, index, true) == Ok::<Seq<TokenView>, ParseErrorView>(
            Seq::new(
                (argv.len() - index) as nat,
                |i: int| TokenView::Positional { value: argv[index + i], index: index + i },
            ),
        ),
        index < argv.len() && argv[index] == "--"@ ==> classified(argv, index, false) == classified(
            argv,
            index + 1,
            true,
        ),
    decreases argv.len() - index,
{
    reveal_strlit("-");
    reveal_strlit("--");
    let all = Seq::new(
        (argv.len() - index) as nat,
        |i: int| TokenView::Positional { value: argv[index + i], index: index + i },
    );
    if index < argv.len() {
        law_two_dashes_end_the_options(argv, index + 1);
        let rest = Seq::new(
            (argv.len() - index - 1) as nat,
            |i: int| TokenView::Positional { value: argv[index + 1 + i], index: index + 1 + i },
        );
        let first = seq![TokenView::Positional { value: argv[index], index }];
        assert(first + rest =~= all) by {
            assert forall|i: int| 0 <= i < all.len() implies (first + rest)[i] == all[i] by {
                if i > 0 {
                    assert((first + rest)[i] == rest[i - 1]);
                }
            }
        }
        if argv[index] == "--"@ {
            assert(argv[index].len() == 2 && argv[index][0] == '-');
            assert(argv[index] != "-"@);
        }
    } else {
        assert(all =~= Seq::empty());
    }
}

/// An option takes the arguments behind it as its values, as many as it wants and
/// whatever they look like; where there are too few, it is refused.
pub proof fn law_an_option_takes_its_values(argv: Seq<Seq<char>>, index: int, row: int)
    requires
        0 <= index < argv.len(),
        0 <= row < table().len(),
        argv[index] == "--"@ + table()[row].long@ || (table()[row].short is Some && table()[row].short
            != Some('=') && argv[index] == "-"@ + seq![table()[row].short->0]),
    ensures
        index + 1 + table()[row].arity_of() <= argv.len() ==> classified(argv, index, false)
            == followed_by(
            TokenView::Opt(
                OccurrenceView {
                    spec: table()[row],
                    as_written: argv[index],
                    values: argv.subrange(index + 1, index + 1 + table()[row].arity_of()),
                    index,
                },
            ),
            classified(argv, index + 1 + table()[row].arity_of(), false),
        ),
        index + 1 + table()[row].arity_of() > argv.len() ==> classified(argv, index, false) == Err::<
            Seq<TokenView>,
            ParseErrorView,
        >(
            ParseErrorView::MissingValues {
                as_written: argv[index],
                wanted: table()[row].arity_of() as int,
                got: argv.len() - index - 1,
                index,
            },
        ),
{
    reveal_strlit("-");
    reveal_strlit("--");
    let arg = argv[index];
    law_an_option_is_found_by_its_names(row, index);
    law_long_names_are_plain(row);
    let long = table()[row].long@;
    if arg == "--"@ + long {
        assert(arg[2] == long[0]);
        assert forall|i: int| 0 <= i < arg.len() implies arg[i] != '=' by {
            if i >= 2 {
                assert(arg[i] == long[i - 2]);
            }
        }
    } else {
        lemma_no_letter_is_a_dash(row);
        assert(arg[1] == table()[row].short->0);
        assert forall|i: int| 0 <= i < arg.len() implies arg[i] != '=' by {}
        assert("--"@[1] == '-');
    }
    lemma_find_none(arg, '=', '=');
    assert(arg.len() > 1);
    assert(arg[0] == '-');
}

/// A value may be written behind an equals sign, where an option takes one; where it
/// takes none, or more, that is refused.
pub proof fn law_a_value_behind_an_equals_sign(
    argv: Seq<Seq<char>>,
    index: int,
    row: int,
    value: Seq<char>,
)
    requires
        0 <= index < argv.len(),
        0 <= row < table().len(),
        argv[index] == "--"@ + table()[row].long@ + "="@ + value,
    ensures
        table()[row].arity_of() == 1 ==> classified(argv, index, false) == followed_by(
            TokenView::Opt(
                OccurrenceView {
                    spec: table()[row],
                    as_written: "--"@ + table()[row].long@,
                    values: seq![value],
                    index,
                },
            ),
            classified(argv, index + 1, false),
        ),
        table()[row].arity_of() == 0 ==> classified(argv, index, false) == Err::<
            Seq<TokenView>,
            ParseErrorView,
        >(ParseErrorView::UnexpectedValue { as_written: "--"@ + table()[row].long@, index }),
        table()[row].arity_of() == 2 ==> classified(argv, index, false) == Err::<
            Seq<TokenView>,
            ParseErrorView,
        >(
            ParseErrorView::InlineValueNotAllowed {
                as_written: "--"@ + table()[row].long@,
                wanted: 2,
                index,
            },
        ),
{
    reveal_strlit("-");
    reveal_strlit("--");
    reveal_strlit("=");
    let arg = argv[index];
    let name = "--"@ + table()[row].long@;
    law_an_option_is_found_by_its_names(row, index);
    law_long_names_are_plain(row);
    let long = table()[row].long@;
    let at = name.len() as int;
    assert forall|i: int| 0 <= i < at implies arg[i] != '=' by {
        assert(arg[i] == name[i]);
        if i >= 2 {
            assert(name[i] == long[i - 2]);
        }
    }
    assert(arg[at] == '=');
    assert(first_of(arg, '=', '=', at));
    lemma_find(arg, '=', '=', at);
    assert(arg.take(at) =~= name);
    assert(arg.skip(at + 1) =~= value);
    assert(arg[0] == '-');
    assert(arg.len() > 2);
}

/// An option that nothing knows ends the reading.
pub proof fn law_an_unknown_option_is_refused(argv: Seq<Seq<char>>, index: int, long: Seq<char>)
    requires
        0 <= index < argv.len(),
        long.len() > 0,
        !long.contains('='),
        argv[index] == "--"@ + long,
        forall|row: int| 0 <= row < table().len() ==> (#[trigger] table()[row]).long@ != long,
    ensures
        classified(argv, index, false) == Err::<Seq<TokenView>, ParseErrorView>(
            ParseErrorView::UnknownOption { as_written: argv[index], index },
        ),
{
    reveal_strlit("-");
    reveal_strlit("--");
    let arg = argv[index];
    law_an_unknown_name_is_refused(long, '=', index);
    assert forall|i: int| 0 <= i < arg.len() implies arg[i] != '=' by {
        if i >= 2 {
            assert(arg[i] == long[i - 2]);
            assert(long.contains(long[i - 2]));
        }
    }
    lemma_find_none(arg, '=', '=');
    assert(arg[0] == '-');
    assert(arg.len() > 2);
}

/// An option of the run goes to the run, wherever it is written.
pub proof fn law_an_option_of_the_run_goes_to_the_run(
    tokens: Seq<TokenView>,
    occurrence: OccurrenceView,
)
    requires
        folded(tokens) is Ok,
        occurrence.spec.scope is Global,
    ensures
        folded(tokens.push(TokenView::Opt(occurrence))) == Ok::<Assembly, ParseErrorView>(
            Assembly {
                globals: folded(tokens)->Ok_0.globals.push(occurrence),
                ..folded(tokens)->Ok_0
            },
        ),
{
    assert(tokens.push(TokenView::Opt(occurrence)).drop_last() =~= tokens);
}

/// An option of an object goes to the object it is written behind, and to all of them
/// where it is written before the first; no other object changes.
pub proof fn law_an_option_goes_to_the_object_before_it(
    tokens: Seq<TokenView>,
    occurrence: OccurrenceView,
    other: int,
)
    requires
        folded(tokens) is Ok,
        occurrence.spec.scope is Object || (occurrence.spec.scope is Toc && folded(
            tokens,
        )->Ok_0.objects.len() > 0 && folded(tokens)->Ok_0.objects.last().kind is Toc),
    ensures
        ({
            let before = folded(tokens)->Ok_0;
            let after = folded(tokens.push(TokenView::Opt(occurrence)));
            &&& after is Ok
            &&& after->Ok_0.globals == before.globals
            &&& after->Ok_0.pending == before.pending
            &&& after->Ok_0.objects.len() == before.objects.len()
            &&& before.objects.len() == 0 ==> after->Ok_0.defaults == before.defaults.push(
                occurrence,
            )
            &&& before.objects.len() > 0 ==> after->Ok_0.defaults == before.defaults
            &&& before.objects.len() > 0 ==> after->Ok_0.objects.last() == (ObjectView {
                kind: before.objects.last().kind,
                options: before.objects.last().options.push(occurrence),
            })
            &&& 0 <= other < before.objects.len() - 1 ==> after->Ok_0.objects[other]
                == before.objects[other]
        }),
{
    assert(tokens.push(TokenView::Opt(occurrence)).drop_last() =~= tokens);
}

/// An option of a table of contents is refused where it does not follow one.
pub proof fn law_an_option_of_contents_follows_contents(
    tokens: Seq<TokenView>,
    occurrence: OccurrenceView,
)
    requires
        folded(tokens) is Ok,
        occurrence.spec.scope is Toc,
        folded(tokens)->Ok_0.objects.len() == 0 || !(folded(tokens)->Ok_0.objects.last().kind
            is Toc),
    ensures
        folded(tokens.push(TokenView::Opt(occurrence))) == Err::<Assembly, ParseErrorView>(
            ParseErrorView::WrongLocation {
                as_written: occurrence.as_written,
                belongs: Placement::TocObject,
                index: occurrence.index,
            },
        ),
{
    assert(tokens.push(TokenView::Opt(occurrence)).drop_last() =~= tokens);
}

/// What the arguments that are no options stand for: `page` and `cover` wait for the
/// next one, `toc` is a table of contents, and every other is a document. What waits
/// takes the next one whatever it is.
pub proof fn law_what_a_plain_argument_adds(
    tokens: Seq<TokenView>,
    value: Seq<char>,
    index: int,
)
    requires
        folded(tokens) is Ok,
    ensures
        ({
            let before = folded(tokens)->Ok_0;
            let after = folded(tokens.push(TokenView::Positional { value, index }));
            &&& after is Ok
            &&& after->Ok_0.globals == before.globals
            &&& after->Ok_0.defaults == before.defaults
            &&& match before.pending {
                Some((keyword, _)) => {
                    &&& after->Ok_0.pending is None
                    &&& keyword == "cover"@ ==> after->Ok_0.objects == before.objects.push(
                        ObjectView {
                            kind: ObjectKindView::Cover(input_of(value)),
                            options: Seq::empty(),
                        },
                    )
                    &&& keyword != "cover"@ ==> after->Ok_0.objects == before.objects.push(
                        ObjectView {
                            kind: ObjectKindView::Page(input_of(value)),
                            options: Seq::empty(),
                        },
                    )
                },
                None => {
                    &&& value == "page"@ || value == "cover"@ ==> after->Ok_0.pending == Some(
                        (value, index),
                    ) && after->Ok_0.objects == before.objects
                    &&& value == "toc"@ ==> after->Ok_0.pending is None && after->Ok_0.objects
                        == before.objects.push(
                        ObjectView { kind: ObjectKindView::Toc, options: Seq::empty() },
                    )
                    &&& value != "page"@ && value != "cover"@ && value != "toc"@
                        ==> after->Ok_0.pending is None && after->Ok_0.objects
                        == before.objects.push(
                        ObjectView {
                            kind: ObjectKindView::Page(input_of(value)),
                            options: Seq::empty(),
                        },
                    )
                },
            }
        }),
{
    reveal_strlit("page");
    reveal_strlit("cover");
    reveal_strlit("toc");
    assert("toc"@.len() == 3 && "page"@.len() == 4 && "cover"@.len() == 5);
    assert(tokens.push(TokenView::Positional { value, index }).drop_last() =~= tokens);
}

/// A refusal ends the reading: what follows changes nothing of it.
pub proof fn law_a_refused_line_stays_refused(first: Seq<TokenView>, second: Seq<TokenView>)
    requires
        folded(first) is Err,
    ensures
        folded(first + second) == folded(first),
    decreases second.len(),
{
    if second.len() == 0 {
        assert(first + second =~= first);
    } else {
        assert((first + second).drop_last() =~= first + second.drop_last());
        law_a_refused_line_stays_refused(first, second.drop_last());
    }
}

/// Whether tokens are options, all of them.
pub open spec fn options_alone(tokens: Seq<TokenView>) -> bool {
    forall|i: int| 0 <= i < tokens.len() ==> (#[trigger] tokens[i]) is Opt
}

proof fn lemma_last(first: Seq<TokenView>, value: Seq<char>, index: int, behind: Seq<TokenView>)
    requires
        options_alone(behind),
    ensures
        last_positional(first + seq![TokenView::Positional { value, index }] + behind)
            == first.len(),
        positional_count(first + seq![TokenView::Positional { value, index }] + behind)
            == positional_count(first) + 1,
    decreases behind.len(),
{
    let own = seq![TokenView::Positional { value, index }];
    let all = first + own + behind;
    if behind.len() == 0 {
        assert(all =~= first + own);
        assert(all.last() == own[0]);
        assert(all.drop_last() =~= first);
    } else {
        assert(all.last() == behind[behind.len() - 1]);
        assert(behind[behind.len() - 1] is Opt);
        assert(all.drop_last() =~= first + own + behind.drop_last());
        lemma_last(first, value, index, behind.drop_last());
    }
}

/// The last argument that is no option is the output; the others are read as if it were
/// not there. With fewer than two there is nothing to convert, and neither is there
/// where a keyword is left without its document.
pub proof fn law_the_last_plain_argument_is_the_output(
    first: Seq<TokenView>,
    value: Seq<char>,
    index: int,
    behind: Seq<TokenView>,
)
    requires
        options_alone(behind),
    ensures
        ({
            let line = first + seq![TokenView::Positional { value, index }] + behind;
            let read = folded(first + behind);
            &&& positional_count(first) == 0 ==> assembled(line) == Err::<
                TokenizedView,
                ParseErrorView,
            >(ParseErrorView::NotEnoughArguments)
            &&& positional_count(first) > 0 && read is Err ==> assembled(line) == Err::<
                TokenizedView,
                ParseErrorView,
            >(read->Err_0)
            &&& positional_count(first) > 0 && read is Ok && read->Ok_0.pending is Some
                ==> assembled(line) == Err::<TokenizedView, ParseErrorView>(
                ParseErrorView::ObjectWithoutInput {
                    keyword: (read->Ok_0.pending->0).0,
                    index: (read->Ok_0.pending->0).1,
                },
            )
            &&& positional_count(first) > 0 && read is Ok && read->Ok_0.pending is None
                && read->Ok_0.objects.len() > 0 ==> assembled(line) == Ok::<
                TokenizedView,
                ParseErrorView,
            >(
                TokenizedView {
                    globals: read->Ok_0.globals,
                    defaults: read->Ok_0.defaults,
                    objects: read->Ok_0.objects,
                    output: output_of(value),
                },
            )
        }),
{
    let own = seq![TokenView::Positional { value, index }];
    let line = first + own + behind;
    lemma_last(first, value, index, behind);
    assert(line.remove(first.len() as int) =~= first + behind);
    assert(line[first.len() as int] == own[0]);
}

/// Tokens hold their options in order.
pub proof fn law_options_among_tokens(
    first: Seq<TokenView>,
    second: Seq<TokenView>,
    occurrence: OccurrenceView,
    value: Seq<char>,
    index: int,
)
    ensures
        options_in(first + second) == options_in(first) + options_in(second),
        options_in(seq![TokenView::Opt(occurrence)]) == seq![occurrence],
        options_in(seq![TokenView::Positional { value, index }]).len() == 0,
    decreases second.len(),
{
    reveal_with_fuel(options_in, 2);
    let one = seq![TokenView::Opt(occurrence)];
    let other = seq![TokenView::Positional { value, index }];
    assert(one.drop_last() =~= Seq::empty());
    assert(other.drop_last() =~= Seq::empty());
    assert(Seq::empty().push(occurrence) =~= seq![occurrence]);
    if second.len() == 0 {
        assert(first + second =~= first);
        assert(options_in(first) + options_in(second) =~= options_in(first));
    } else {
        assert((first + second).drop_last() =~= first + second.drop_last());
        assert((first + second).last() == second.last());
        law_options_among_tokens(first, second.drop_last(), occurrence, value, index);
        assert(options_in(first + second) =~= options_in(first) + options_in(second));
    }
}

/// Of a line that can be read, the first option that is answered before a conversion is
/// the one answered.
pub proof fn law_the_first_request_is_answered(argv: Seq<Seq<char>>, at: int)
    requires
        classified(argv, 0, false) is Ok,
        0 <= at < classified(argv, 0, false)->Ok_0.len(),
        classified(argv, 0, false)->Ok_0[at] matches TokenView::Opt(own) && own.spec.support is Meta,
        forall|i: int|
            0 <= i < at ==> !((#[trigger] classified(argv, 0, false)->Ok_0[i]) is Opt && classified(
                argv,
                0,
                false,
            )->Ok_0[i]->Opt_0.spec.support is Meta),
    ensures
        asked_for(argv) == Some(classified(argv, 0, false)->Ok_0[at]->Opt_0.spec),
{
    lemma_first_meta(classified(argv, 0, false)->Ok_0, at);
}

proof fn lemma_first_meta(tokens: Seq<TokenView>, at: int)
    requires
        0 <= at < tokens.len(),
        tokens[at] is Opt,
        tokens[at]->Opt_0.spec.support is Meta,
        forall|i: int|
            0 <= i < at ==> !((#[trigger] tokens[i]) is Opt && tokens[i]->Opt_0.spec.support
                is Meta),
    ensures
        meta_in(tokens) == Some(tokens[at]->Opt_0.spec),
    decreases at,
{
    if at > 0 {
        let rest = tokens.skip(1);
        assert(!(tokens[0] is Opt && tokens[0]->Opt_0.spec.support is Meta));
        assert forall|i: int| 0 <= i < at - 1 implies !((#[trigger] rest[i]) is Opt
            && rest[i]->Opt_0.spec.support is Meta) by {
            assert(rest[i] == tokens[i + 1]);
        }
        lemma_first_meta(rest, at - 1);
    }
}

/// A line that cannot be read may still ask: the first argument that is the name of such
/// an option is answered, if there is one.
pub proof fn law_a_mistyped_line_may_ask(argv: Seq<Seq<char>>, at: int, row: int)
    requires
        classified(argv, 0, false) is Err,
        0 <= at < argv.len(),
        0 <= row < table().len(),
        table()[row].support is Meta,
        argv[at] == "--"@ + table()[row].long@,
        forall|i: int| 0 <= i < at ==> !is_option(#[trigger] argv[i]),
    ensures
        asked_for(argv) == Some(table()[row]),
{
    lemma_mistyped(argv, at, row);
}

proof fn lemma_mistyped(argv: Seq<Seq<char>>, at: int, row: int)
    requires
        0 <= at < argv.len(),
        0 <= row < table().len(),
        table()[row].support is Meta,
        argv[at] == "--"@ + table()[row].long@,
        forall|i: int| 0 <= i < at ==> !is_option(#[trigger] argv[i]),
    ensures
        meta_among(argv) == Some(table()[row]),
    decreases at,
{
    if at > 0 {
        assert(!is_option(argv[0]));
        let rest = argv.skip(1);
        assert forall|i: int| 0 <= i < at - 1 implies !is_option(#[trigger] rest[i]) by {
            assert(rest[i] == argv[i + 1]);
        }
        lemma_mistyped(rest, at - 1, row);
    } else {
        reveal_strlit("-");
        reveal_strlit("--");
        let arg = argv[0];
        let long = table()[row].long@;
        law_an_option_is_found_by_its_names(row, 0);
        law_long_names_are_plain(row);
        assert forall|i: int| 0 <= i < arg.len() implies arg[i] != '=' by {
            if i >= 2 {
                assert(arg[i] == long[i - 2]);
            }
        }
        lemma_find_none(arg, '=', '=');
        assert(arg[0] == '-');
        assert(arg.len() > 1);
    }
}

/// What a refused line is answered with names what was written and what is wrong.
pub proof fn law_a_refusal_says_what_is_wrong(
    as_written: Seq<char>,
    wanted: int,
    got: int,
    index: int,
)
    ensures
        parse_error_message(ParseErrorView::UnknownOption { as_written, index })
            == "Unknown long argument "@ + as_written,
        parse_error_message(ParseErrorView::MissingValues { as_written, wanted, got, index })
            == as_written + " needs "@ + decimal(wanted) + " value(s), but only "@ + decimal(got)
            + " were given"@,
        parse_error_message(ParseErrorView::UnexpectedValue { as_written, index }) == as_written
            + " takes no value"@,
        parse_error_message(ParseErrorView::InlineValueNotAllowed { as_written, wanted, index })
            == as_written + " needs "@ + decimal(wanted)
            + " values, so they must be written as separate arguments"@,
        parse_error_message(ParseErrorView::ObjectWithoutInput { keyword: as_written, index })
            == "`"@ + as_written + "` must be followed by an input"@,
        parse_error_message(
            ParseErrorView::WrongLocation { as_written, belongs: Placement::GlobalArea, index },
        ) == as_written + " is a global option, so it must be written before the first input"@,
        parse_error_message(
            ParseErrorView::WrongLocation { as_written, belongs: Placement::TocObject, index },
        ) == as_written + " applies to a table of contents, so it must follow a `toc` object"@,
{
}

} // verus!
