//! Starting a browser.

use crate::encoding::{lowercase, lowercase_text};
use crate::error::Error;
use crate::json::{json_string_at, text_at};
use crate::locate::{Executable, Flavour};
use crate::message::SessionId;
use crate::numbers::{space, is_space};
use crate::text::{chars_of, decimal, holds, maybe, occurs, push_number, text_of, texts};
use crate::tokenizer::copy_texts;
use vstd::prelude::*;
use vstd::utf8::encode_utf8;

verus! {

/// How long a browser may take to answer, in milliseconds.
pub const DEFAULT_HANDSHAKE_TIMEOUT: u64 = 20000;

/// How much of what a browser says is kept, in bytes.
pub const STDERR_KEPT_BYTES: usize = 16384;

/// How many lines of what a browser said are shown.
pub const SHOWN_LINES: usize = 20;

/// What to do about a refused sandbox.
pub const SANDBOX_ADVICE: &'static str = "\nThis looks like the sandbox being refused, which is usual in a container.\nRetry with --no-sandbox, but only for HTML you trust: the sandbox is what\ncontains a hostile document.";

/// What a browser is started with. The last four have no flag of their own and
/// are carried for whoever drives it.
#[derive(Debug, PartialEq, Eq)]
pub struct LaunchOptions {
    pub no_sandbox: bool,
    pub extra_args: Vec<String>,
    /// A profile to use in place of a temporary one.
    pub user_data_dir: Option<String>,
    /// How long the browser may take to answer, in milliseconds.
    pub handshake_timeout: Option<u64>,
    pub allow_slow_scripts: bool,
    pub proxy: Option<String>,
    /// The hosts that are reached without the proxy.
    pub bypass_proxy_for: Vec<String>,
    pub cache_dir: Option<String>,
    pub minimum_font_size: Option<u32>,
    pub no_images: bool,
}

/// A [`LaunchOptions`] by the characters it holds.
pub struct LaunchOptionsView {
    pub no_sandbox: bool,
    pub extra_args: Seq<Seq<char>>,
    pub user_data_dir: Option<Seq<char>>,
    pub handshake_timeout: Option<u64>,
    pub allow_slow_scripts: bool,
    pub proxy: Option<Seq<char>>,
    pub bypass_proxy_for: Seq<Seq<char>>,
    pub cache_dir: Option<Seq<char>>,
    pub minimum_font_size: Option<u32>,
    pub no_images: bool,
}

impl View for LaunchOptions {
    type V = LaunchOptionsView;

    open spec fn view(&self) -> LaunchOptionsView {
        LaunchOptionsView {
            no_sandbox: self.no_sandbox,
            extra_args: texts(self.extra_args@),
            user_data_dir: maybe(self.user_data_dir),
            handshake_timeout: self.handshake_timeout,
            allow_slow_scripts: self.allow_slow_scripts,
            proxy: maybe(self.proxy),
            bypass_proxy_for: texts(self.bypass_proxy_for@),
            cache_dir: maybe(self.cache_dir),
            minimum_font_size: self.minimum_font_size,
            no_images: self.no_images,
        }
    }
}

/// What a browser is started with when nothing is asked for.
pub open spec fn default_options() -> LaunchOptionsView {
    LaunchOptionsView {
        no_sandbox: false,
        extra_args: Seq::empty(),
        user_data_dir: None,
        handshake_timeout: None,
        allow_slow_scripts: false,
        proxy: None,
        bypass_proxy_for: Seq::empty(),
        cache_dir: None,
        minimum_font_size: None,
        no_images: false,
    }
}

impl Default for LaunchOptions {
    fn default() -> (options: LaunchOptions)
        ensures
            options@ == default_options(),
    {
        let options = LaunchOptions {
            no_sandbox: false,
            extra_args: Vec::new(),
            user_data_dir: None,
            handshake_timeout: None,
            allow_slow_scripts: false,
            proxy: None,
            bypass_proxy_for: Vec::new(),
            cache_dir: None,
            minimum_font_size: None,
            no_images: false,
        };
        assert(texts(options.extra_args@) =~= Seq::empty());
        assert(texts(options.bypass_proxy_for@) =~= Seq::empty());
        options
    }
}

impl LaunchOptions {
    /// How long the browser may take to answer, in milliseconds.
    pub fn patience(&self) -> (patience: u64)
        ensures
            patience == match self.handshake_timeout {
                Some(timeout) => timeout,
                None => DEFAULT_HANDSHAKE_TIMEOUT,
            },
    {
        match self.handshake_timeout {
            Some(timeout) => timeout,
            None => DEFAULT_HANDSHAKE_TIMEOUT,
        }
    }
}

/// The flags that every browser is started with.
pub open spec fn baseline() -> Seq<Seq<char>> {
    seq![
        "--remote-debugging-pipe"@,
        "--no-first-run"@,
        "--no-default-browser-check"@,
        "--disable-background-networking"@,
        "--disable-sync"@,
        "--metrics-recording-only"@,
        "--mute-audio"@,
        "--disable-dev-shm-usage"@,
        "--hide-scrollbars"@,
        "--disable-gpu"@,
    ]
}

/// The arguments that a browser is started with, in order. A flag of the
/// command line's own comes last.
pub open spec fn arguments_of(
    flavour: Flavour,
    profile: Seq<char>,
    options: LaunchOptionsView,
) -> Seq<Seq<char>> {
    seq!["--user-data-dir="@ + profile] + baseline() + (if flavour == Flavour::FullBrowser {
        seq!["--headless=new"@]
    } else {
        Seq::empty()
    }) + (if options.no_sandbox {
        seq!["--no-sandbox"@]
    } else {
        Seq::empty()
    }) + options.extra_args
}

/// Add a text to a list.
fn push_text(list: &mut Vec<String>, text: &str)
    ensures
        texts(final(list)@) == texts(old(list)@).push(text@),
{
    let ghost before = texts(list@);
    list.push(text.to_owned());
    assert(texts(list@) =~= before.push(text@));
}

fn push_baseline(list: &mut Vec<String>)
    ensures
        texts(final(list)@) == texts(old(list)@) + baseline(),
{
    let ghost before = texts(list@);
    push_text(list, "--remote-debugging-pipe");
    push_text(list, "--no-first-run");
    push_text(list, "--no-default-browser-check");
    push_text(list, "--disable-background-networking");
    push_text(list, "--disable-sync");
    push_text(list, "--metrics-recording-only");
    push_text(list, "--mute-audio");
    push_text(list, "--disable-dev-shm-usage");
    push_text(list, "--hide-scrollbars");
    push_text(list, "--disable-gpu");
    assert(texts(list@) =~= before + baseline());
}

/// The arguments that a browser is started with, in order.
pub fn arguments(executable: &Executable, profile: &str, options: &LaunchOptions) -> (list: Vec<
    String,
>)
    ensures
        texts(list@) == arguments_of(executable.flavour, profile@, options@),
{
    let mut list: Vec<String> = Vec::new();
    let mut directory = "--user-data-dir=".to_owned();
    directory.push_str(profile);
    push_text(&mut list, &directory);
    assert(texts(list@) =~= seq!["--user-data-dir="@ + profile@]);
    push_baseline(&mut list);
    let ghost so_far = texts(list@);
    match executable.flavour {
        Flavour::FullBrowser => {
            push_text(&mut list, "--headless=new");
            assert(texts(list@) =~= so_far + seq!["--headless=new"@]);
        },
        Flavour::HeadlessShell => {
            assert(texts(list@) =~= so_far + Seq::<Seq<char>>::empty());
        },
    }
    let ghost so_far = texts(list@);
    if options.no_sandbox {
        push_text(&mut list, "--no-sandbox");
        assert(texts(list@) =~= so_far + seq!["--no-sandbox"@]);
    } else {
        assert(texts(list@) =~= so_far + Seq::<Seq<char>>::empty());
    }
    let ghost so_far = list@;
    let mut extra = copy_texts(&options.extra_args);
    let ghost added = extra@;
    list.append(&mut extra);
    assert(texts(so_far + added) =~= texts(so_far) + texts(added));
    list
}

/// The name of a temporary profile.
pub open spec fn profile_name_of(process: int, count: int, nanos: int) -> Seq<char> {
    "rchtmltopdf-"@ + decimal(process) + "-"@ + decimal(count) + "-"@ + decimal(nanos)
}

/// The name of a temporary profile: by the process, by how many it has made,
/// and by the moment.
pub fn profile_name(process: u32, count: u64, nanos: u32) -> (name: String)
    ensures
        name@ == profile_name_of(process as int, count as int, nanos as int),
{
    let mut name = "rchtmltopdf-".to_owned();
    push_number(&mut name, process as u64);
    name.push_str("-");
    push_number(&mut name, count);
    name.push_str("-");
    push_number(&mut name, nanos as u64);
    name
}

/// The lines of a text, without what ends them. A line end at the very end ends
/// the last line and begins none.
pub open spec fn lines_of(text: Seq<char>) -> (Seq<Seq<char>>, Seq<char>)
    decreases text.len(),
{
    if text.len() == 0 {
        (Seq::empty(), Seq::empty())
    } else {
        let (lines, open) = lines_of(text.drop_last());
        if text.last() == '\n' {
            (lines.push(without_return(open)), Seq::empty())
        } else {
            (lines, open.push(text.last()))
        }
    }
}

/// A line without the carriage return that it may end in.
pub open spec fn without_return(line: Seq<char>) -> Seq<char> {
    if line.len() > 0 && line.last() == '\r' {
        line.drop_last()
    } else {
        line
    }
}

/// Every line of a text. An open last line keeps its carriage return.
pub open spec fn all_lines(text: Seq<char>) -> Seq<Seq<char>> {
    let (lines, open) = lines_of(text);
    if open.len() == 0 {
        lines
    } else {
        lines.push(open)
    }
}

/// Every line of a text.
pub fn lines(text: &str) -> (list: Vec<String>)
    ensures
        texts(list@) == all_lines(text@),
{
    let chars = chars_of(text);
    let size: usize = chars.len();
    let mut list: Vec<String> = Vec::new();
    let mut start: usize = 0;
    let mut at: usize = 0;
    assert(chars@.take(0) =~= Seq::empty());
    assert(texts(list@) =~= Seq::empty());
    assert(chars@.subrange(0, 0) =~= Seq::empty());
    while at < size
        invariant
            start <= at <= size == chars@.len(),
            lines_of(chars@.take(at as int)) == (
                texts(list@),
                chars@.subrange(start as int, at as int),
            ),
        decreases size - at,
    {
        assert(chars@.take(at + 1).drop_last() =~= chars@.take(at as int));
        assert(chars@.take(at + 1).last() == chars@[at as int]);
        let ghost open = chars@.subrange(start as int, at as int);
        if chars[at] == '\n' {
            let end: usize = if at > start && chars[at - 1] == '\r' {
                at - 1
            } else {
                at
            };
            let line = text_of(&chars, start, end);
            assert(line@ =~= without_return(open));
            push_text(&mut list, &line);
            at = at + 1;
            start = at;
            assert(chars@.subrange(start as int, at as int) =~= Seq::empty());
        } else {
            assert(open.push(chars@[at as int]) =~= chars@.subrange(start as int, at + 1));
            at = at + 1;
        }
    }
    assert(chars@.take(at as int) =~= text@);
    if start < size {
        let line = text_of(&chars, start, size);
        push_text(&mut list, &line);
    }
    list
}

/// The first lines of a list, each indented.
pub open spec fn indented(list: Seq<Seq<char>>) -> Seq<char>
    decreases list.len(),
{
    if list.len() == 0 {
        Seq::empty()
    } else {
        indented(list.drop_last()) + "  "@ + list.last() + "\n"@
    }
}

/// The first lines of a list.
pub open spec fn first_lines(list: Seq<Seq<char>>) -> Seq<Seq<char>> {
    if list.len() > SHOWN_LINES {
        list.take(SHOWN_LINES as int)
    } else {
        list
    }
}

/// Whether a text is nothing but white space.
pub open spec fn is_blank(text: Seq<char>) -> bool {
    forall|i: int| 0 <= i < text.len() ==> is_space(#[trigger] text[i])
}

/// Whether a text is nothing but white space.
fn blank(text: &str) -> (yes: bool)
    ensures
        yes == is_blank(text@),
{
    let chars = chars_of(text);
    let mut at: usize = 0;
    while at < chars.len()
        invariant
            at <= chars@.len(),
            chars@ == text@,
            forall|i: int| 0 <= i < at ==> is_space(#[trigger] chars@[i]),
        decreases chars@.len() - at,
    {
        if !space(chars[at]) {
            assert(!is_space(text@[at as int]));
            return false;
        }
        at = at + 1;
    }
    true
}

/// Why a browser did not start: the cause, what it said itself, and what to do
/// about a refused sandbox.
pub open spec fn explanation(path: Seq<char>, cause: Seq<char>, output: Seq<char>) -> Seq<char> {
    path + " failed to start: "@ + cause + (if is_blank(output) {
        Seq::empty()
    } else {
        "\nthe browser said:\n"@ + indented(first_lines(all_lines(output)))
    }) + (if occurs(lowercase_text(output), "sandbox"@) {
        SANDBOX_ADVICE@
    } else {
        Seq::empty()
    })
}

/// Why a browser did not start.
pub fn explain(executable: &Executable, cause: &Error, output: &str) -> (error: Error)
    ensures
        error matches Error::Launch { detail } && detail@ == explanation(
            executable.path@,
            crate::error::error_message(*cause),
            output@,
        ),
{
    let mut detail = executable.path.clone();
    detail.push_str(" failed to start: ");
    detail.push_str(&cause.message());
    let ghost head = detail@;
    if !blank(output) {
        detail.push_str("\nthe browser said:\n");
        let ghost start = detail@;
        let list = lines(output);
        let ghost all = texts(list@);
        let ghost shown = first_lines(all);
        let size: usize = if list.len() > SHOWN_LINES {
            SHOWN_LINES
        } else {
            list.len()
        };
        let mut at: usize = 0;
        assert(shown.take(0) =~= Seq::empty());
        assert(detail@ =~= start + indented(shown.take(0)));
        while at < size
            invariant
                at <= size == shown.len(),
                size <= list@.len(),
                all == texts(list@),
                forall|i: int| 0 <= i < size ==> shown[i] == all[i],
                detail@ == start + indented(shown.take(at as int)),
            decreases size - at,
        {
            let ghost before = indented(shown.take(at as int));
            assert(shown.take(at + 1).drop_last() =~= shown.take(at as int));
            assert(shown.take(at + 1).last() == list@[at as int]@);
            detail.push_str("  ");
            detail.push_str(&list[at]);
            detail.push_str("\n");
            assert(detail@ =~= start + (before + "  "@ + list@[at as int]@ + "\n"@));
            at = at + 1;
        }
        assert(shown.take(at as int) =~= shown);
        assert(detail@ =~= head + ("\nthe browser said:\n"@ + indented(shown)));
    } else {
        assert(detail@ =~= head + Seq::<char>::empty());
    }
    let ghost so_far = detail@;
    if holds(&lowercase(output), "sandbox") {
        detail.push_str(SANDBOX_ADVICE);
    } else {
        assert(detail@ =~= so_far + Seq::<char>::empty());
    }
    Error::Launch { detail }
}

/// That a browser did not answer in time.
pub fn unanswered(executable: &Executable, patience: u64) -> (error: Error)
    ensures
        error matches Error::Io(words) && words@ == executable.path@ + " did not answer within "@
            + decimal(patience as int / 1000) + "s"@,
{
    let mut words = executable.path.clone();
    words.push_str(" did not answer within ");
    push_number(&mut words, patience / 1000);
    words.push_str("s");
    Error::Io(words)
}

/// That a browser could not be started, in the system's own words.
pub fn unstartable(executable: &Executable, reason: &str) -> (error: Error)
    ensures
        error matches Error::Io(words) && words@ == "could not start "@ + executable.path@ + ": "@
            + reason@,
{
    let mut words = "could not start ".to_owned();
    words.push_str(&executable.path);
    words.push_str(": ");
    words.push_str(reason);
    Error::Io(words)
}

/// As much of the end of a text as fits so many bytes.
pub open spec fn tail_within(text: Seq<char>, limit: int) -> Seq<char>
    decreases text.len(),
{
    if text.len() == 0 || encode_utf8(text).len() <= limit {
        text
    } else {
        tail_within(text.skip(1), limit)
    }
}

/// How many bytes a character takes.
fn width(c: char) -> (bytes: usize)
    ensures
        bytes == encode_utf8(seq![c]).len(),
{
    let mut text = String::new();
    text.push(c);
    assert(text@ =~= seq![c]);
    text.as_str().as_bytes().len()
}

proof fn lemma_first_width(text: Seq<char>)
    requires
        text.len() > 0,
    ensures
        encode_utf8(text).len() == encode_utf8(seq![text[0]]).len() + encode_utf8(text.skip(1)).len(),
{
    reveal_with_fuel(encode_utf8, 2);
    assert(text.drop_first() =~= text.skip(1));
    assert(seq![text[0]].drop_first() =~= Seq::empty());
}

/// Add to what a browser has said, and forget what is too long ago.
pub fn keep_tail(held: &mut String, said: &str)
    ensures
        final(held)@ == tail_within(old(held)@ + said@, STDERR_KEPT_BYTES as int),
{
    held.push_str(said);
    let ghost all = held@;
    let chars = chars_of(held.as_str());
    let count: usize = chars.len();
    let mut size: usize = held.as_str().as_bytes().len();
    let mut at: usize = 0;
    assert(all.skip(0) =~= all);
    while at < count && size > STDERR_KEPT_BYTES
        invariant
            at <= count == chars@.len(),
            chars@ == all,
            size == encode_utf8(all.skip(at as int)).len(),
            tail_within(all, STDERR_KEPT_BYTES as int) == tail_within(
                all.skip(at as int),
                STDERR_KEPT_BYTES as int,
            ),
        decreases count - at,
    {
        proof {
            lemma_first_width(all.skip(at as int));
        }
        assert(all.skip(at as int)[0] == chars@[at as int]);
        assert(all.skip(at as int).skip(1) =~= all.skip(at + 1));
        size = size - width(chars[at]);
        at = at + 1;
    }
    if at > 0 {
        *held = text_of(&chars, at, count);
    }
    assert(held@ =~= all.skip(at as int));
}

/// The tab that a target was opened in, where the browser named one.
pub open spec fn target_of(answer: Seq<char>) -> Option<Seq<char>> {
    json_string_at(answer, "/targetId"@)
}

/// The target that the browser says it created.
pub fn created_target(answer: &str) -> (outcome: Result<String, Error>)
    ensures
        match target_of(answer@) {
            Some(target) => outcome matches Ok(given) && given@ == target,
            None => outcome matches Err(Error::Malformed { detail }) && detail@
                == "Target.createTarget replied without a targetId"@,
        },
{
    match text_at(answer, "/targetId") {
        Some(target) => Ok(target),
        None => Err(
            Error::Malformed {
                detail: "Target.createTarget replied without a targetId".to_owned(),
            },
        ),
    }
}

/// A page of a browser: the session that drives it and the target it is.
#[derive(Debug, PartialEq, Eq)]
pub struct Page {
    session: SessionId,
    target_id: String,
}

impl Page {
    /// The session's name.
    pub closed spec fn session_view(&self) -> Seq<char> {
        self.session@
    }

    /// The target's name.
    pub closed spec fn target_view(&self) -> Seq<char> {
        self.target_id@
    }

    /// A page that a session drives.
    pub fn over_session(session: SessionId, target_id: String) -> (page: Page)
        ensures
            page.session_view() == session@,
            page.target_view() == target_id@,
    {
        Page { session, target_id }
    }

    /// The session that drives the page.
    pub fn session(&self) -> (session: &SessionId)
        ensures
            session@ == self.session_view(),
    {
        &self.session
    }

    /// The target that the page is.
    pub fn target_id(&self) -> (id: &str)
        ensures
            id@ == self.target_view(),
    {
        self.target_id.as_str()
    }
}

proof fn lemma_tail(text: Seq<char>, limit: int)
    requires
        0 <= limit,
    ensures
        encode_utf8(tail_within(text, limit)).len() <= limit,
        exists|from: int| 0 <= from <= text.len() && tail_within(text, limit) == #[trigger] text.skip(from),
    decreases text.len(),
{
    if text.len() == 0 {
        assert(encode_utf8(text).len() == 0) by {
            reveal_with_fuel(encode_utf8, 2);
        }
        assert(text.skip(0) =~= text);
    } else if encode_utf8(text).len() <= limit {
        assert(text.skip(0) =~= text);
    } else {
        lemma_tail(text.skip(1), limit);
        let rest = text.skip(1);
        let from = choose|from: int|
            0 <= from <= rest.len() && tail_within(rest, limit) == #[trigger] rest.skip(from);
        assert(rest.skip(from) =~= text.skip(from + 1));
    }
}

/// What is kept of a browser's words never grows past its limit, and is always
/// the end of all that was said.
pub proof fn law_what_is_kept_is_bounded(text: Seq<char>, limit: int)
    requires
        0 <= limit,
    ensures
        encode_utf8(tail_within(text, limit)).len() <= limit,
        tail_within(text, limit).is_suffix_of(text),
{
    lemma_tail(text, limit);
    let from = choose|from: int|
        0 <= from <= text.len() && tail_within(text, limit) == #[trigger] text.skip(from);
    assert(text.skip(from) =~= text.subrange(
        text.len() - text.skip(from).len(),
        text.len() as int,
    ));
}

/// A browser is started with its profile first and with what the command line adds last;
/// it is told to be headless where it is a full browser, and to leave out its sandbox only
/// where that was asked for; and it always speaks over a pipe.
pub proof fn law_what_a_browser_is_told(
    flavour: Flavour,
    profile: Seq<char>,
    options: LaunchOptionsView,
)
    ensures
        ({
            let arguments = arguments_of(flavour, profile, options);
            let own = 11 + (if flavour == Flavour::FullBrowser {
                1int
            } else {
                0int
            }) + (if options.no_sandbox {
                1int
            } else {
                0int
            });
            &&& arguments[0] == "--user-data-dir="@ + profile
            &&& arguments[1] == "--remote-debugging-pipe"@
            &&& arguments.len() == own + options.extra_args.len()
            &&& arguments.skip(own) == options.extra_args
            &&& flavour == Flavour::FullBrowser ==> arguments[11] == "--headless=new"@
            &&& options.no_sandbox ==> arguments[own - 1] == "--no-sandbox"@
            &&& arguments.contains("--no-first-run"@)
            &&& arguments.contains("--no-default-browser-check"@)
            &&& arguments.contains("--disable-background-networking"@)
            &&& arguments.contains("--disable-dev-shm-usage"@)
            &&& arguments.contains("--hide-scrollbars"@)
            &&& arguments.contains("--disable-gpu"@)
            &&& arguments.contains("--disable-sync"@)
            &&& arguments.contains("--metrics-recording-only"@)
            &&& arguments.contains("--mute-audio"@)
        }),
{
    let arguments = arguments_of(flavour, profile, options);
    let own = 11 + (if flavour == Flavour::FullBrowser {
        1int
    } else {
        0int
    }) + (if options.no_sandbox {
        1int
    } else {
        0int
    });
    assert(arguments.skip(own) =~= options.extra_args);
    assert(arguments[2] == "--no-first-run"@);
    assert(arguments[3] == "--no-default-browser-check"@);
    assert(arguments[4] == "--disable-background-networking"@);
    assert(arguments[5] == "--disable-sync"@);
    assert(arguments[6] == "--metrics-recording-only"@);
    assert(arguments[7] == "--mute-audio"@);
    assert(arguments[8] == "--disable-dev-shm-usage"@);
    assert(arguments[9] == "--hide-scrollbars"@);
    assert(arguments[10] == "--disable-gpu"@);
}

proof fn lemma_lines(line: Seq<char>, rest: Seq<char>)
    requires
        !line.contains('\n'),
    ensures
        lines_of(line) == (Seq::<Seq<char>>::empty(), line),
        lines_of(line + seq!['\n'] + rest) == (
            seq![without_return(line)] + lines_of(rest).0,
            lines_of(rest).1,
        ),
    decreases rest.len(), line.len(),
{
    let all = line + seq!['\n'] + rest;
    if line.len() > 0 {
        let shorter = line.drop_last();
        assert(line.contains(line.last()));
        assert forall|c: char| shorter.contains(c) implies line.contains(c) by {
            let i = choose|i: int| 0 <= i < shorter.len() && shorter[i] == c;
            assert(line[i] == c);
        }
        lemma_lines(shorter, Seq::empty());
        assert(shorter.push(line.last()) =~= line);
    } else {
        assert(line =~= Seq::empty());
    }
    if rest.len() == 0 {
        assert(all.drop_last() =~= line);
        assert(all.last() == '\n');
        assert(lines_of(all.drop_last()) == (Seq::<Seq<char>>::empty(), line));
        assert(lines_of(rest).0 =~= Seq::empty());
        assert(lines_of(all).0 =~= seq![without_return(line)] + lines_of(rest).0);
    } else {
        assert(all.drop_last() =~= line + seq!['\n'] + rest.drop_last());
        assert(all.last() == rest.last());
        lemma_lines(line, rest.drop_last());
        let (before, open) = lines_of(rest.drop_last());
        let first = seq![without_return(line)];
        assert(lines_of(all.drop_last()) == (first + before, open));
        if rest.last() == '\n' {
            assert((first + before).push(without_return(open)) =~= first + before.push(
                without_return(open),
            ));
        }
        assert(lines_of(all).0 =~= first + lines_of(rest).0);
    }
}

/// A text is parted into its lines, without what ends them; a line end at the very end
/// begins no other line.
pub proof fn law_a_text_is_parted_into_lines(line: Seq<char>, rest: Seq<char>)
    requires
        !line.contains('\n'),
    ensures
        line.len() > 0 ==> all_lines(line) == seq![line],
        all_lines(Seq::empty()).len() == 0,
        line.len() > 0 && line.last() == '\r' ==> all_lines(line + seq!['\n'] + rest) == seq![
            line.drop_last(),
        ] + all_lines(rest),
        line.len() == 0 || line.last() != '\r' ==> all_lines(line + seq!['\n'] + rest) == seq![line]
            + all_lines(rest),
{
    lemma_lines(line, rest);
    assert(Seq::<Seq<char>>::empty().push(line) =~= seq![line]);
    let first = seq![without_return(line)];
    let (lines, open) = lines_of(rest);
    assert((first + lines).push(open) =~= first + lines.push(open));
}

/// What the browser said is shown line by line, each set in, the first twenty of them.
pub proof fn law_what_the_browser_said_is_shown(list: Seq<Seq<char>>, line: Seq<char>)
    ensures
        indented(list.push(line)) == indented(list) + "  "@ + line + "\n"@,
        indented(Seq::empty()).len() == 0,
        list.len() <= 20 ==> first_lines(list) == list,
        list.len() > 20 ==> first_lines(list) == list.take(20),
{
    assert(list.push(line).drop_last() =~= list);
    assert(list.push(line).last() == line);
}

/// Why a browser did not start is told with its path, with the cause, with what it said
/// where it said anything, and with advice where it spoke of its sandbox.
pub proof fn law_why_a_browser_did_not_start(path: Seq<char>, cause: Seq<char>, output: Seq<char>)
    ensures
        ({
            let blank = forall|i: int| 0 <= i < output.len() ==> is_space(#[trigger] output[i]);
            let told = path + " failed to start: "@ + cause;
            let said = "\nthe browser said:\n"@ + indented(first_lines(all_lines(output)));
            let sandbox = occurs(lowercase_text(output), "sandbox"@);
            &&& blank && !sandbox ==> explanation(path, cause, output) == told
            &&& !blank && !sandbox ==> explanation(path, cause, output) == told + said
            &&& !blank && sandbox ==> explanation(path, cause, output) == told + said
                + SANDBOX_ADVICE@
        }),
{
    let told = path + " failed to start: "@ + cause;
    let said = "\nthe browser said:\n"@ + indented(first_lines(all_lines(output)));
    let none = Seq::<char>::empty();
    assert(told + none + none =~= told);
    assert(told + said + none =~= told + said);
}

/// As much of the end of a text is kept as fits: no longer end of it would.
pub proof fn law_as_much_is_kept_as_fits(text: Seq<char>, limit: int, from: int)
    requires
        0 <= from <= text.len(),
        encode_utf8(text.skip(from)).len() <= limit,
    ensures
        tail_within(text, limit).len() >= text.len() - from,
    decreases text.len(),
{
    if from == 0 {
        assert(text.skip(0) =~= text);
    } else if !(text.len() == 0 || encode_utf8(text).len() <= limit) {
        assert(text.skip(1).skip(from - 1) =~= text.skip(from));
        law_as_much_is_kept_as_fits(text.skip(1), limit, from - 1);
    }
}

/// The name of a temporary profile tells its process, its count and its moment apart, and a
/// tab is the one that the browser names.
pub proof fn law_profiles_and_tabs(process: int, count: int, nanos: int, answer: Seq<char>)
    ensures
        profile_name_of(process, count, nanos) == "rchtmltopdf-"@ + decimal(process) + "-"@
            + decimal(count) + "-"@ + decimal(nanos),
        target_of(answer) == json_string_at(answer, "/targetId"@),
{
}

} // verus!
