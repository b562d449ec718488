//! Finding a browser.
//!
//! The search goes down a ladder of rungs: the flag, the environment variables,
//! the system locations, the cache. The first rung that holds an executable
//! wins.

pub use crate::error::PINNED_VERSION;
use crate::error::{attempts_of, Error, SearchAttempt, SearchAttemptView};
use crate::numbers::{lower, lowered};
use crate::paths::{file_name, join, joined, last_name};
use crate::text::{chars_of, finishes, holds, maybe, occurs, text_of, texts};
use vstd::prelude::*;

verus! {

/// How a browser was found.
#[derive(Clone, Copy, Debug, PartialEq, Eq)]
pub enum Origin {
    Flag,
    Environment { variable: &'static str },
    SystemLocation,
    Cache,
}

/// An [`Origin`] by the characters it holds.
pub enum OriginView {
    Flag,
    Environment { variable: Seq<char> },
    SystemLocation,
    Cache,
}

impl View for Origin {
    type V = OriginView;

    open spec fn view(&self) -> OriginView {
        match *self {
            Origin::Flag => OriginView::Flag,
            Origin::Environment { variable } => OriginView::Environment { variable: variable@ },
            Origin::SystemLocation => OriginView::SystemLocation,
            Origin::Cache => OriginView::Cache,
        }
    }
}

/// How an origin is written.
pub open spec fn origin_text(origin: OriginView) -> Seq<char> {
    match origin {
        OriginView::Flag => "--chromium-path"@,
        OriginView::Environment { variable } => "$"@ + variable,
        OriginView::SystemLocation => "a system location"@,
        OriginView::Cache => "the cache directory"@,
    }
}

impl Origin {
    /// The origin as it is shown.
    pub fn describe(&self) -> (text: String)
        ensures
            text@ == origin_text(self@),
    {
        match self {
            Origin::Flag => "--chromium-path".to_owned(),
            Origin::Environment { variable } => {
                let mut text = "$".to_owned();
                text.push_str(variable);
                text
            },
            Origin::SystemLocation => "a system location".to_owned(),
            Origin::Cache => "the cache directory".to_owned(),
        }
    }
}

/// What kind of browser an executable is.
#[derive(Clone, Copy, Debug, PartialEq, Eq)]
pub enum Flavour {
    HeadlessShell,
    FullBrowser,
}

/// A browser that was found.
#[derive(Debug, PartialEq, Eq)]
pub struct Executable {
    pub path: String,
    pub origin: Origin,
    pub flavour: Flavour,
}

/// An [`Executable`] by the characters it holds.
pub struct ExecutableView {
    pub path: Seq<char>,
    pub origin: OriginView,
    pub flavour: Flavour,
}

impl View for Executable {
    type V = ExecutableView;

    open spec fn view(&self) -> ExecutableView {
        ExecutableView { path: self.path@, origin: self.origin@, flavour: self.flavour }
    }
}

/// What kind of browser a path names, by its last name in small letters.
pub open spec fn flavour_of(path: Seq<char>) -> Flavour {
    let name = match last_name(path) {
        Some(name) => lowered(name),
        None => Seq::empty(),
    };
    if occurs(name, "headless-shell"@) {
        Flavour::HeadlessShell
    } else {
        Flavour::FullBrowser
    }
}

/// The browser at a path.
pub open spec fn executable_at(path: Seq<char>, origin: OriginView) -> ExecutableView {
    ExecutableView { path, origin, flavour: flavour_of(path) }
}

impl Executable {
    /// The browser at a path.
    pub fn at(path: String, origin: Origin) -> (executable: Executable)
        ensures
            executable@ == executable_at(path@, origin@),
    {
        let name = match file_name(&path) {
            Some(name) => lower(&name),
            None => String::new(),
        };
        let flavour = if holds(&name, "headless-shell") {
            Flavour::HeadlessShell
        } else {
            Flavour::FullBrowser
        };
        Executable { path, origin, flavour }
    }
}

/// The kind of machine that the program runs on.
#[derive(Clone, Copy, Debug, PartialEq, Eq)]
pub enum Platform {
    Linux,
    MacOs,
    Windows,
}

/// What downloads for a platform are named after.
pub open spec fn slug_of(platform: Platform, arm: bool) -> Seq<char> {
    match platform {
        Platform::Linux => if arm {
            "linux-arm64"@
        } else {
            "linux64"@
        },
        Platform::MacOs => if arm {
            "mac-arm64"@
        } else {
            "mac-x64"@
        },
        Platform::Windows => "win64"@,
    }
}

/// How executables end on a platform.
pub open spec fn suffix_of(platform: Platform) -> Seq<char> {
    match platform {
        Platform::Windows => ".exe"@,
        _ => ""@,
    }
}

impl Platform {
    fn download_slug(self, arm: bool) -> (slug: &'static str)
        ensures
            slug@ == slug_of(self, arm),
    {
        match self {
            Platform::Linux => if arm {
                "linux-arm64"
            } else {
                "linux64"
            },
            Platform::MacOs => if arm {
                "mac-arm64"
            } else {
                "mac-x64"
            },
            Platform::Windows => "win64",
        }
    }

    fn executable_suffix(self) -> (suffix: &'static str)
        ensures
            suffix@ == suffix_of(self),
    {
        match self {
            Platform::Windows => ".exe",
            _ => "",
        }
    }
}

/// What the search asks of the machine. While a search goes on, the answers do
/// not change. The machine that an implementation speaks of, unless it names
/// another, is an empty one.
pub trait Environment {
    /// The value of an environment variable.
    open spec fn variable(&self, key: Seq<char>) -> Option<Seq<char>> {
        None
    }

    /// Whether a path is a file that can be run.
    open spec fn runs(&self, path: Seq<char>) -> bool {
        false
    }

    /// The home directory.
    open spec fn home_directory(&self) -> Option<Seq<char>> {
        None
    }

    /// The kind of machine.
    open spec fn machine(&self) -> Platform {
        Platform::Linux
    }

    fn var(&self, key: &str) -> (value: Option<String>)
        ensures
            maybe(value) == self.variable(key@),
    ;

    fn is_executable_file(&self, path: &str) -> (yes: bool)
        ensures
            yes == self.runs(path@),
    ;

    fn home(&self) -> (home: Option<String>)
        ensures
            maybe(home) == self.home_directory(),
    ;

    fn platform(&self) -> (platform: Platform)
        ensures
            platform == self.machine(),
    ;
}

/// The environment variables that name a browser, in the order of their worth.
pub open spec fn variable_names() -> Seq<Seq<char>> {
    seq![
        "RCHTMLTOPDF_CHROMIUM"@,
        "CHROME_PATH"@,
        "CHROMIUM_PATH"@,
        "PUPPETEER_EXECUTABLE_PATH"@,
    ]
}

/// The executables of the bundles that hold a browser on macOS.
pub open spec fn bundle_names() -> Seq<Seq<char>> {
    seq![
        "Google Chrome for Testing"@,
        "Chromium"@,
        "Google Chrome"@,
        "Google Chrome Canary"@,
    ]
}

/// What a browser's executable is called, best first.
pub open spec fn executable_names() -> Seq<Seq<char>> {
    seq![
        "chrome-headless-shell"@,
        "chromium"@,
        "chromium-browser"@,
        "google-chrome"@,
        "google-chrome-stable"@,
    ]
}

/// The literals of a list, by the characters they hold.
spec fn literals(list: Seq<&'static str>) -> Seq<Seq<char>> {
    list.map_values(|text: &'static str| text@)
}

fn variables() -> (list: Vec<&'static str>)
    ensures
        literals(list@) == variable_names(),
{
    let list: Vec<&'static str> = vec![
        "RCHTMLTOPDF_CHROMIUM",
        "CHROME_PATH",
        "CHROMIUM_PATH",
        "PUPPETEER_EXECUTABLE_PATH",
    ];
    assert(literals(list@) =~= variable_names());
    list
}

fn bundles() -> (list: Vec<&'static str>)
    ensures
        literals(list@) == bundle_names(),
{
    let list: Vec<&'static str> = vec![
        "Google Chrome for Testing",
        "Chromium",
        "Google Chrome",
        "Google Chrome Canary",
    ];
    assert(literals(list@) =~= bundle_names());
    list
}

fn names() -> (list: Vec<&'static str>)
    ensures
        literals(list@) == executable_names(),
{
    let list: Vec<&'static str> = vec![
        "chrome-headless-shell",
        "chromium",
        "chromium-browser",
        "google-chrome",
        "google-chrome-stable",
    ];
    assert(literals(list@) =~= executable_names());
    list
}

/// Names with the same ending, below one directory.
pub open spec fn below(directory: Seq<char>, list: Seq<Seq<char>>, suffix: Seq<char>) -> Seq<
    Seq<char>,
> {
    list.map_values(|name: Seq<char>| joined(directory, name + suffix))
}

/// Names with the same ending, each below its own download in a directory.
pub open spec fn unpacked(
    directory: Seq<char>,
    list: Seq<Seq<char>>,
    slug: Seq<char>,
    suffix: Seq<char>,
) -> Seq<Seq<char>> {
    list.map_values(
        |name: Seq<char>| joined(joined(directory, name + "-"@ + slug), name + suffix),
    )
}

/// Whether a path is that of a bundle of macOS.
pub open spec fn is_bundle(path: Seq<char>) -> bool {
    match last_name(path) {
        Some(name) => name.len() > 4 && ".app"@.is_suffix_of(name),
        None => false,
    }
}

/// Every path that may be meant by one that was given: itself, an executable in
/// a bundle, one in a directory, one in a download that was unpacked there.
pub open spec fn given_paths(given: Seq<char>, platform: Platform) -> Seq<Seq<char>> {
    let suffix = suffix_of(platform);
    seq![given] + (if is_bundle(given) {
        below(joined(joined(given, "Contents"@), "MacOS"@), bundle_names(), ""@)
    } else {
        Seq::empty()
    }) + below(given, executable_names(), suffix) + unpacked(
        given,
        executable_names(),
        slug_of(platform, true),
        suffix,
    ) + unpacked(given, executable_names(), slug_of(platform, false), suffix)
}

/// Add names with the same ending, below one directory.
fn push_below(
    out: &mut Vec<String>,
    directory: &str,
    list: &Vec<&'static str>,
    suffix: &str,
)
    ensures
        texts(final(out)@) == texts(old(out)@) + below(directory@, literals(list@), suffix@),
{
    let ghost start = texts(out@);
    let ghost all = below(directory@, literals(list@), suffix@);
    let size: usize = list.len();
    let mut at: usize = 0;
    assert(texts(out@) =~= start + all.take(0));
    while at < size
        invariant
            at <= size == list@.len(),
            all == below(directory@, literals(list@), suffix@),
            texts(out@) == start + all.take(at as int),
        decreases size - at,
    {
        let ghost before = texts(out@);
        let mut name = list[at].to_owned();
        name.push_str(suffix);
        let path = join(directory, &name);
        let ghost added = path@;
        out.push(path);
        assert(literals(list@)[at as int] == list@[at as int]@);
        assert(all[at as int] == added);
        assert(texts(out@) =~= before.push(added));
        assert(all.take(at + 1) =~= all.take(at as int).push(added));
        at = at + 1;
        assert(texts(out@) =~= start + all.take(at as int));
    }
    assert(all.take(at as int) =~= all);
}

/// Add names with the same ending, each below its own download.
fn push_unpacked(
    out: &mut Vec<String>,
    directory: &str,
    list: &Vec<&'static str>,
    slug: &str,
    suffix: &str,
)
    ensures
        texts(final(out)@) == texts(old(out)@) + unpacked(
            directory@,
            literals(list@),
            slug@,
            suffix@,
        ),
{
    let ghost start = texts(out@);
    let ghost all = unpacked(directory@, literals(list@), slug@, suffix@);
    let size: usize = list.len();
    let mut at: usize = 0;
    assert(texts(out@) =~= start + all.take(0));
    while at < size
        invariant
            at <= size == list@.len(),
            all == unpacked(directory@, literals(list@), slug@, suffix@),
            texts(out@) == start + all.take(at as int),
        decreases size - at,
    {
        let ghost before = texts(out@);
        let mut name = list[at].to_owned();
        name.push_str("-");
        name.push_str(slug);
        let mut last = list[at].to_owned();
        last.push_str(suffix);
        let path = join(&join(directory, &name), &last);
        let ghost added = path@;
        out.push(path);
        assert(literals(list@)[at as int] == list@[at as int]@);
        assert(all[at as int] == added);
        assert(texts(out@) =~= before.push(added));
        assert(all.take(at + 1) =~= all.take(at as int).push(added));
        at = at + 1;
        assert(texts(out@) =~= start + all.take(at as int));
    }
    assert(all.take(at as int) =~= all);
}

/// Whether a path is that of a bundle of macOS.
fn names_bundle(path: &str) -> (yes: bool)
    ensures
        yes == is_bundle(path@),
{
    match file_name(path) {
        Some(name) => {
            let size: usize = chars_of(&name).len();
            size > 4 && finishes(&name, ".app")
        },
        None => false,
    }
}

/// Every path that may be meant by one that was given.
pub fn given_candidates<E: Environment>(given: &str, env: &E) -> (candidates: Vec<String>)
    ensures
        texts(candidates@) == given_paths(given@, env.machine()),
{
    let platform = env.platform();
    let suffix = platform.executable_suffix();
    let list = names();
    let mut candidates: Vec<String> = vec![given.to_owned()];
    assert(texts(candidates@) =~= seq![given@]);
    if names_bundle(given) {
        let contents = join(&join(given, "Contents"), "MacOS");
        push_below(&mut candidates, &contents, &bundles(), "");
    } else {
        assert(texts(candidates@) =~= seq![given@] + Seq::<Seq<char>>::empty());
    }
    push_below(&mut candidates, given, &list, suffix);
    push_unpacked(&mut candidates, given, &list, platform.download_slug(true), suffix);
    push_unpacked(&mut candidates, given, &list, platform.download_slug(false), suffix);
    candidates
}

/// The first of some paths that can be run.
pub open spec fn first_runnable<E: Environment>(env: E, paths: Seq<Seq<char>>) -> Option<Seq<char>>
    decreases paths.len(),
{
    if paths.len() == 0 {
        None
    } else if env.runs(paths[0]) {
        Some(paths[0])
    } else {
        first_runnable(env, paths.skip(1))
    }
}

/// The first of some paths that can be run.
fn first_of_paths<E: Environment>(env: &E, paths: &Vec<String>) -> (found: Option<String>)
    ensures
        maybe(found) == first_runnable(*env, texts(paths@)),
{
    let ghost all = texts(paths@);
    let size: usize = paths.len();
    let mut at: usize = 0;
    assert(all.skip(0) =~= all);
    while at < size
        invariant
            at <= size == paths@.len(),
            all == texts(paths@),
            first_runnable(*env, all) == first_runnable(*env, all.skip(at as int)),
        decreases size - at,
    {
        assert(all.skip(at as int)[0] == paths@[at as int]@);
        assert(all.skip(at as int).skip(1) =~= all.skip(at + 1));
        if env.is_executable_file(&paths[at]) {
            return Some(paths[at].clone());
        }
        at = at + 1;
    }
    None
}

/// The browser that a given path means.
pub fn resolve_given<E: Environment>(given: &str, env: &E) -> (found: Option<String>)
    ensures
        maybe(found) == first_runnable(*env, given_paths(given@, env.machine())),
{
    let candidates = given_candidates(given, env);
    first_of_paths(env, &candidates)
}

/// One rung of the search.
pub struct RungView {
    pub origin: OriginView,
    /// What a failure calls the rung.
    pub source: Seq<char>,
    /// The path that a failure shows.
    pub path: Seq<char>,
    /// The paths that are tried.
    pub candidates: Seq<Seq<char>>,
}

/// The rung of a path that was given.
pub open spec fn given_rung(
    origin: OriginView,
    source: Seq<char>,
    given: Seq<char>,
    platform: Platform,
) -> RungView {
    RungView { origin, source, path: given, candidates: given_paths(given, platform) }
}

/// The rungs of the environment variables that are set.
pub open spec fn variable_rungs<E: Environment>(env: E, list: Seq<Seq<char>>) -> Seq<RungView>
    decreases list.len(),
{
    if list.len() == 0 {
        Seq::empty()
    } else {
        let earlier = variable_rungs(env, list.drop_last());
        match env.variable(list.last()) {
            Some(value) => earlier.push(
                given_rung(
                    OriginView::Environment { variable: list.last() },
                    list.last(),
                    value,
                    env.machine(),
                ),
            ),
            None => earlier,
        }
    }
}

/// One rung for each path of a list.
pub open spec fn single_rungs(
    origin: OriginView,
    source: Seq<char>,
    paths: Seq<Seq<char>>,
) -> Seq<RungView> {
    paths.map_values(
        |path: Seq<char>| RungView { origin, source, path, candidates: seq![path] },
    )
}

/// The directories of a search path, and the one that the text ends in.
pub open spec fn split_at_colons(text: Seq<char>) -> Seq<Seq<char>>
    decreases text.len(),
{
    if text.len() == 0 {
        seq![Seq::empty()]
    } else {
        let earlier = split_at_colons(text.drop_last());
        if text.last() == ':' {
            earlier.push(Seq::empty())
        } else {
            earlier.drop_last().push(earlier.last().push(text.last()))
        }
    }
}

/// The executables in a list of directories, directory by directory.
pub open spec fn in_directories(directories: Seq<Seq<char>>, suffix: Seq<char>) -> Seq<Seq<char>>
    decreases directories.len(),
{
    if directories.len() == 0 {
        Seq::empty()
    } else {
        in_directories(directories.drop_last(), suffix) + below(
            directories.last(),
            executable_names(),
            suffix,
        )
    }
}

/// The bundles that browsers are installed as on macOS.
pub open spec fn application_names() -> Seq<Seq<char>> {
    seq![
        "Google Chrome for Testing.app/Contents/MacOS/Google Chrome for Testing"@,
        "Chromium.app/Contents/MacOS/Chromium"@,
        "Google Chrome.app/Contents/MacOS/Google Chrome"@,
    ]
}

/// Chrome below each of the directories that some variables name on Windows.
pub open spec fn windows_paths<E: Environment>(env: E, list: Seq<Seq<char>>) -> Seq<Seq<char>>
    decreases list.len(),
{
    if list.len() == 0 {
        Seq::empty()
    } else {
        let earlier = windows_paths(env, list.drop_last());
        match env.variable(list.last()) {
            Some(root) => earlier.push(
                joined(
                    joined(joined(joined(root, "Google"@), "Chrome"@), "Application"@),
                    "chrome.exe"@,
                ),
            ),
            None => earlier,
        }
    }
}

/// The variables that name where programs are installed on Windows.
pub open spec fn windows_roots() -> Seq<Seq<char>> {
    seq!["PROGRAMFILES"@, "PROGRAMFILES(X86)"@, "LOCALAPPDATA"@]
}

/// The places where a platform is known to install browsers.
pub open spec fn known_paths<E: Environment>(env: E) -> Seq<Seq<char>> {
    match env.machine() {
        Platform::Linux => seq![
            "/opt/google/chrome/chrome"@,
            "/opt/chromium.org/chromium/chrome"@,
            "/snap/bin/chromium"@,
        ],
        Platform::MacOs => below("/Applications"@, application_names(), ""@) + match env
            .home_directory() {
            Some(home) => below(joined(home, "Applications"@), application_names(), ""@),
            None => Seq::empty(),
        },
        Platform::Windows => windows_paths(env, windows_roots()),
    }
}

/// The executables on the search path.
pub open spec fn search_paths<E: Environment>(env: E) -> Seq<Seq<char>> {
    match env.variable("PATH"@) {
        Some(text) => in_directories(split_at_colons(text), suffix_of(env.machine())),
        None => Seq::empty(),
    }
}

/// Where downloads are kept.
pub open spec fn cache_of<E: Environment>(env: E) -> Option<Seq<char>> {
    match env.variable("RCHTMLTOPDF_CACHE_DIR"@) {
        Some(directory) => Some(directory),
        None => match env.machine() {
            Platform::Linux => match env.variable("XDG_CACHE_HOME"@) {
                Some(base) => Some(joined(base, "rchtmltopdf"@)),
                None => match env.home_directory() {
                    Some(home) => Some(joined(joined(home, ".cache"@), "rchtmltopdf"@)),
                    None => None,
                },
            },
            Platform::MacOs => match env.home_directory() {
                Some(home) => Some(
                    joined(joined(joined(home, "Library"@), "Caches"@), "rchtmltopdf"@),
                ),
                None => None,
            },
            Platform::Windows => match env.variable("LOCALAPPDATA"@) {
                Some(base) => Some(joined(joined(base, "rchtmltopdf"@), "cache"@)),
                None => match env.home_directory() {
                    Some(home) => Some(
                        joined(
                            joined(joined(joined(home, "AppData"@), "Local"@), "rchtmltopdf"@),
                            "cache"@,
                        ),
                    ),
                    None => None,
                },
            },
        },
    }
}

/// Where a pinned download is kept below the cache.
pub open spec fn cached_path(cache: Seq<char>, platform: Platform, arm: bool) -> Seq<char> {
    joined(
        joined(joined(cache, PINNED_VERSION@), "chrome-headless-shell-"@ + slug_of(platform, arm)),
        "chrome-headless-shell"@ + suffix_of(platform),
    )
}

/// The browsers that the cache may hold.
pub open spec fn cached_paths<E: Environment>(env: E) -> Seq<Seq<char>> {
    match cache_of(env) {
        Some(cache) => seq![
            cached_path(cache, env.machine(), true),
            cached_path(cache, env.machine(), false),
        ],
        None => Seq::empty(),
    }
}

/// The whole ladder, in order.
pub open spec fn rungs<E: Environment>(flag: Option<Seq<char>>, env: E) -> Seq<RungView> {
    (match flag {
        Some(given) => seq![
            given_rung(OriginView::Flag, "--chromium-path"@, given, env.machine()),
        ],
        None => Seq::empty(),
    }) + variable_rungs(env, variable_names()) + single_rungs(
        OriginView::SystemLocation,
        "PATH"@,
        search_paths(env),
    ) + single_rungs(OriginView::SystemLocation, "known location"@, known_paths(env))
        + single_rungs(OriginView::Cache, "download cache"@, cached_paths(env))
}

/// What a rung holds.
pub open spec fn held<E: Environment>(env: E, rung: RungView) -> Option<Seq<char>> {
    first_runnable(env, rung.candidates)
}

/// What a failure says of each rung.
pub open spec fn tried(ladder: Seq<RungView>) -> Seq<SearchAttemptView> {
    ladder.map_values(
        |rung: RungView| SearchAttemptView { source: rung.source, path: rung.path },
    )
}

/// Whether a rung is the first of a ladder that holds a browser.
pub open spec fn wins<E: Environment>(env: E, ladder: Seq<RungView>, at: int) -> bool {
    &&& 0 <= at < ladder.len()
    &&& held(env, ladder[at]) is Some
    &&& forall|i: int| 0 <= i < at ==> held(env, #[trigger] ladder[i]) is None
}

/// What a search finds: the browser of the first rung that holds one, or every
/// rung that holds none.
pub open spec fn found_on<E: Environment>(
    env: E,
    ladder: Seq<RungView>,
    outcome: Result<ExecutableView, Seq<SearchAttemptView>>,
) -> bool {
    match outcome {
        Ok(executable) => exists|at: int| #[trigger]
            wins(env, ladder, at) && executable == executable_at(
                held(env, ladder[at])->0,
                ladder[at].origin,
            ),
        Err(attempts) => attempts == tried(ladder) && forall|i: int|
            0 <= i < ladder.len() ==> held(env, #[trigger] ladder[i]) is None,
    }
}

/// One rung of the search.
struct Rung {
    origin: Origin,
    source: &'static str,
    path: String,
    candidates: Vec<String>,
}

impl View for Rung {
    type V = RungView;

    closed spec fn view(&self) -> RungView {
        RungView {
            origin: self.origin@,
            source: self.source@,
            path: self.path@,
            candidates: texts(self.candidates@),
        }
    }
}

spec fn rung_views(list: Seq<Rung>) -> Seq<RungView> {
    list.map_values(|rung: Rung| rung@)
}

fn push_rung(ladder: &mut Vec<Rung>, rung: Rung)
    ensures
        rung_views(final(ladder)@) == rung_views(old(ladder)@).push(rung@),
{
    let ghost before = rung_views(ladder@);
    let ghost added = rung@;
    ladder.push(rung);
    assert(rung_views(ladder@) =~= before.push(added));
}

/// Add the rungs of the environment variables that are set.
fn push_variables<E: Environment>(ladder: &mut Vec<Rung>, env: &E)
    ensures
        rung_views(final(ladder)@) == rung_views(old(ladder)@) + variable_rungs(
            *env,
            variable_names(),
        ),
{
    let ghost start = rung_views(ladder@);
    let list = variables();
    let ghost all = literals(list@);
    let size: usize = list.len();
    let mut at: usize = 0;
    assert(all.take(0) =~= Seq::empty());
    assert(start + variable_rungs(*env, all.take(0)) =~= start);
    while at < size
        invariant
            at <= size == list@.len(),
            all == literals(list@),
            rung_views(ladder@) == start + variable_rungs(*env, all.take(at as int)),
        decreases size - at,
    {
        let ghost earlier = variable_rungs(*env, all.take(at as int));
        assert(all.take(at + 1).drop_last() =~= all.take(at as int));
        assert(all.take(at + 1).last() == list@[at as int]@);
        let variable: &'static str = list[at];
        if let Some(value) = env.var(variable) {
            let candidates = given_candidates(&value, env);
            let rung = Rung {
                origin: Origin::Environment { variable },
                source: variable,
                path: value,
                candidates,
            };
            let ghost added = rung@;
            push_rung(ladder, rung);
            assert(start + earlier.push(added) =~= (start + earlier).push(added));
        }
        at = at + 1;
    }
    assert(all.take(at as int) =~= all);
}

/// Add one rung for each path of a list.
fn push_singles(
    ladder: &mut Vec<Rung>,
    origin: Origin,
    source: &'static str,
    paths: &Vec<String>,
)
    ensures
        rung_views(final(ladder)@) == rung_views(old(ladder)@) + single_rungs(
            origin@,
            source@,
            texts(paths@),
        ),
{
    let ghost start = rung_views(ladder@);
    let ghost all = single_rungs(origin@, source@, texts(paths@));
    let size: usize = paths.len();
    let mut at: usize = 0;
    assert(start + all.take(0) =~= start);
    while at < size
        invariant
            at <= size == paths@.len(),
            all == single_rungs(origin@, source@, texts(paths@)),
            rung_views(ladder@) == start + all.take(at as int),
        decreases size - at,
    {
        let ghost before = rung_views(ladder@);
        let path = paths[at].clone();
        let candidates: Vec<String> = vec![paths[at].clone()];
        assert(texts(candidates@) =~= seq![paths@[at as int]@]);
        let rung = Rung { origin, source, path, candidates };
        let ghost added = rung@;
        push_rung(ladder, rung);
        assert(texts(paths@)[at as int] == paths@[at as int]@);
        assert(all[at as int] == added);
        assert(all.take(at + 1) =~= all.take(at as int).push(added));
        at = at + 1;
        assert(before.push(added) =~= start + all.take(at as int));
    }
    assert(all.take(at as int) =~= all);
}

/// The directories of a search path.
fn directories(text: &str) -> (list: Vec<String>)
    ensures
        texts(list@) == split_at_colons(text@),
{
    let chars = chars_of(text);
    let size: usize = chars.len();
    let mut list: Vec<String> = Vec::new();
    let mut start: usize = 0;
    let mut at: usize = 0;
    assert(chars@.take(0) =~= Seq::empty());
    assert(texts(list@).push(chars@.subrange(0, 0)) =~= seq![Seq::<char>::empty()]);
    while at < size
        invariant
            start <= at <= size == chars@.len(),
            texts(list@).push(chars@.subrange(start as int, at as int)) == split_at_colons(
                chars@.take(at as int),
            ),
        decreases size - at,
    {
        let ghost earlier = texts(list@).push(chars@.subrange(start as int, at as int));
        assert(chars@.take(at + 1).drop_last() =~= chars@.take(at as int));
        assert(chars@.take(at + 1).last() == chars@[at as int]);
        if chars[at] == ':' {
            let ghost before = texts(list@);
            let piece = text_of(&chars, start, at);
            let ghost added = piece@;
            list.push(piece);
            assert(texts(list@) =~= before.push(added));
            at = at + 1;
            start = at;
            assert(chars@.subrange(start as int, at as int) =~= Seq::empty());
        } else {
            assert(earlier.drop_last() =~= texts(list@));
            assert(chars@.subrange(start as int, at as int).push(chars@[at as int])
                =~= chars@.subrange(start as int, at + 1));
            at = at + 1;
        }
    }
    let ghost before = texts(list@);
    let piece = text_of(&chars, start, size);
    let ghost added = piece@;
    list.push(piece);
    assert(texts(list@) =~= before.push(added));
    assert(chars@.take(size as int) =~= text@);
    list
}

/// The executables on the search path.
fn on_search_path<E: Environment>(env: &E) -> (paths: Vec<String>)
    ensures
        texts(paths@) == search_paths(*env),
{
    let mut paths: Vec<String> = Vec::new();
    assert(texts(paths@) =~= Seq::empty());
    if let Some(text) = env.var("PATH") {
        let suffix = env.platform().executable_suffix();
        let list = names();
        let places = directories(&text);
        let ghost all = texts(places@);
        let size: usize = places.len();
        let mut at: usize = 0;
        assert(all.take(0) =~= Seq::empty());
        while at < size
            invariant
                at <= size == places@.len(),
                all == texts(places@),
                literals(list@) == executable_names(),
                texts(paths@) == in_directories(all.take(at as int), suffix@),
            decreases size - at,
        {
            assert(all.take(at + 1).drop_last() =~= all.take(at as int));
            assert(all.take(at + 1).last() == places@[at as int]@);
            push_below(&mut paths, &places[at], &list, suffix);
            at = at + 1;
        }
        assert(all.take(at as int) =~= all);
    }
    paths
}

fn applications() -> (list: Vec<&'static str>)
    ensures
        literals(list@) == application_names(),
{
    let list: Vec<&'static str> = vec![
        "Google Chrome for Testing.app/Contents/MacOS/Google Chrome for Testing",
        "Chromium.app/Contents/MacOS/Chromium",
        "Google Chrome.app/Contents/MacOS/Google Chrome",
    ];
    assert(literals(list@) =~= application_names());
    list
}

/// Chrome below the directories that variables name on Windows.
fn on_windows<E: Environment>(env: &E) -> (paths: Vec<String>)
    ensures
        texts(paths@) == windows_paths(*env, windows_roots()),
{
    let roots: Vec<&'static str> = vec!["PROGRAMFILES", "PROGRAMFILES(X86)", "LOCALAPPDATA"];
    let ghost all = literals(roots@);
    assert(all =~= windows_roots());
    let mut paths: Vec<String> = Vec::new();
    let size: usize = roots.len();
    let mut at: usize = 0;
    assert(all.take(0) =~= Seq::empty());
    assert(texts(paths@) =~= Seq::empty());
    while at < size
        invariant
            at <= size == roots@.len(),
            all == literals(roots@),
            texts(paths@) == windows_paths(*env, all.take(at as int)),
        decreases size - at,
    {
        assert(all.take(at + 1).drop_last() =~= all.take(at as int));
        assert(all.take(at + 1).last() == roots@[at as int]@);
        if let Some(root) = env.var(roots[at]) {
            let ghost before = texts(paths@);
            let path = join(
                &join(&join(&join(&root, "Google"), "Chrome"), "Application"),
                "chrome.exe",
            );
            let ghost added = path@;
            paths.push(path);
            assert(texts(paths@) =~= before.push(added));
        }
        at = at + 1;
    }
    assert(all.take(at as int) =~= all);
    paths
}

/// The places where a platform is known to install browsers.
fn known_locations<E: Environment>(env: &E) -> (paths: Vec<String>)
    ensures
        texts(paths@) == known_paths(*env),
{
    match env.platform() {
        Platform::Linux => {
            let paths: Vec<String> = vec![
                "/opt/google/chrome/chrome".to_owned(),
                "/opt/chromium.org/chromium/chrome".to_owned(),
                "/snap/bin/chromium".to_owned(),
            ];
            assert(texts(paths@) =~= known_paths(*env));
            paths
        },
        Platform::MacOs => {
            let list = applications();
            let mut paths: Vec<String> = Vec::new();
            assert(texts(paths@) =~= Seq::empty());
            push_below(&mut paths, "/Applications", &list, "");
            assert(texts(paths@) =~= below("/Applications"@, application_names(), ""@));
            match env.home() {
                Some(home) => {
                    let own = join(&home, "Applications");
                    push_below(&mut paths, &own, &list, "");
                },
                None => {
                    assert(texts(paths@) =~= texts(paths@) + Seq::<Seq<char>>::empty());
                },
            }
            paths
        },
        Platform::Windows => on_windows(env),
    }
}

/// Every system location, with the name that a failure gives it.
pub fn system_candidates<E: Environment>(env: &E) -> (candidates: Vec<(&'static str, String)>)
    ensures
        candidates@.map_values(|pair: (&'static str, String)| (pair.0@, pair.1@))
            == search_paths(*env).map_values(|path: Seq<char>| ("PATH"@, path))
            + known_paths(*env).map_values(|path: Seq<char>| ("known location"@, path)),
{
    let first = on_search_path(env);
    let second = known_locations(env);
    let ghost shown = |pair: (&'static str, String)| (pair.0@, pair.1@);
    let ghost searched = search_paths(*env).map_values(|path: Seq<char>| ("PATH"@, path));
    let ghost known = known_paths(*env).map_values(|path: Seq<char>| ("known location"@, path));
    let mut candidates: Vec<(&'static str, String)> = Vec::new();
    let size: usize = first.len();
    let mut at: usize = 0;
    assert(candidates@.map_values(shown) =~= searched.take(0));
    while at < size
        invariant
            at <= size == first@.len(),
            texts(first@) == search_paths(*env),
            shown == (|pair: (&'static str, String)| (pair.0@, pair.1@)),
            searched == search_paths(*env).map_values(|path: Seq<char>| ("PATH"@, path)),
            candidates@.map_values(shown) == searched.take(at as int),
        decreases size - at,
    {
        let ghost before = candidates@.map_values(shown);
        assert(search_paths(*env)[at as int] == first@[at as int]@);
        candidates.push(("PATH", first[at].clone()));
        assert(candidates@.map_values(shown) =~= before.push(searched[at as int]));
        at = at + 1;
        assert(before.push(searched[at - 1]) =~= searched.take(at as int));
    }
    assert(searched.take(at as int) =~= searched);
    let size: usize = second.len();
    let mut at: usize = 0;
    assert(candidates@.map_values(shown) =~= searched + known.take(0));
    while at < size
        invariant
            at <= size == second@.len(),
            texts(second@) == known_paths(*env),
            shown == (|pair: (&'static str, String)| (pair.0@, pair.1@)),
            known == known_paths(*env).map_values(|path: Seq<char>| ("known location"@, path)),
            candidates@.map_values(shown) == searched + known.take(at as int),
        decreases size - at,
    {
        let ghost before = candidates@.map_values(shown);
        assert(known_paths(*env)[at as int] == second@[at as int]@);
        candidates.push(("known location", second[at].clone()));
        assert(candidates@.map_values(shown) =~= before.push(known[at as int]));
        at = at + 1;
        assert(before.push(known[at - 1]) =~= searched + known.take(at as int));
    }
    assert(known.take(at as int) =~= known);
    candidates
}

/// Where downloads are kept.
pub fn cache_directory<E: Environment>(env: &E) -> (directory: Option<String>)
    ensures
        maybe(directory) == cache_of(*env),
{
    if let Some(directory) = env.var("RCHTMLTOPDF_CACHE_DIR") {
        return Some(directory);
    }
    match env.platform() {
        Platform::Linux => match env.var("XDG_CACHE_HOME") {
            Some(base) => Some(join(&base, "rchtmltopdf")),
            None => match env.home() {
                Some(home) => Some(join(&join(&home, ".cache"), "rchtmltopdf")),
                None => None,
            },
        },
        Platform::MacOs => match env.home() {
            Some(home) => Some(join(&join(&join(&home, "Library"), "Caches"), "rchtmltopdf")),
            None => None,
        },
        Platform::Windows => match env.var("LOCALAPPDATA") {
            Some(base) => Some(join(&join(&base, "rchtmltopdf"), "cache")),
            None => match env.home() {
                Some(home) => Some(
                    join(
                        &join(&join(&join(&home, "AppData"), "Local"), "rchtmltopdf"),
                        "cache",
                    ),
                ),
                None => None,
            },
        },
    }
}

fn cached<E: Environment>(cache: &str, env: &E, arm: bool) -> (path: String)
    ensures
        path@ == cached_path(cache@, env.machine(), arm),
{
    let platform = env.platform();
    let mut directory = "chrome-headless-shell-".to_owned();
    directory.push_str(platform.download_slug(arm));
    let mut name = "chrome-headless-shell".to_owned();
    name.push_str(platform.executable_suffix());
    join(&join(&join(cache, PINNED_VERSION), &directory), &name)
}

/// The browsers that the cache may hold.
pub fn cache_candidates<E: Environment>(env: &E) -> (paths: Vec<String>)
    ensures
        texts(paths@) == cached_paths(*env),
{
    match cache_directory(env) {
        Some(cache) => {
            let paths: Vec<String> = vec![cached(&cache, env, true), cached(&cache, env, false)];
            assert(texts(paths@) =~= cached_paths(*env));
            paths
        },
        None => {
            let paths: Vec<String> = Vec::new();
            assert(texts(paths@) =~= Seq::empty());
            paths
        },
    }
}

/// The whole ladder.
fn ladder<E: Environment>(flag: Option<&str>, env: &E) -> (list: Vec<Rung>)
    ensures
        rung_views(list@) == rungs(
            match flag {
                Some(given) => Some(given@),
                None => None,
            },
            *env,
        ),
{
    let mut list: Vec<Rung> = Vec::new();
    assert(rung_views(list@) =~= Seq::empty());
    if let Some(given) = flag {
        let rung = Rung {
            origin: Origin::Flag,
            source: "--chromium-path",
            path: given.to_owned(),
            candidates: given_candidates(given, env),
        };
        let ghost added = rung@;
        push_rung(&mut list, rung);
        assert(rung_views(list@) =~= seq![added]);
    }
    push_variables(&mut list, env);
    let searched = on_search_path(env);
    push_singles(&mut list, Origin::SystemLocation, "PATH", &searched);
    let known = known_locations(env);
    push_singles(&mut list, Origin::SystemLocation, "known location", &known);
    let kept = cache_candidates(env);
    push_singles(&mut list, Origin::Cache, "download cache", &kept);
    list
}

/// Find a browser: the first rung of the ladder that holds one.
pub fn locate<E: Environment>(flag: Option<&str>, env: &E) -> (outcome: Result<Executable, Error>)
    ensures
        ({
            let flag = match flag {
                Some(given) => Some(given@),
                None => None,
            };
            match outcome {
                Ok(executable) => found_on(*env, rungs(flag, *env), Ok(executable@)),
                Err(Error::BrowserNotFound { attempts }) => found_on(
                    *env,
                    rungs(flag, *env),
                    Err(attempts_of(attempts@)),
                ),
                Err(_) => false,
            }
        }),
{
    let list = ladder(flag, env);
    let ghost all = rung_views(list@);
    let mut attempts: Vec<SearchAttempt> = Vec::new();
    let size: usize = list.len();
    let mut at: usize = 0;
    assert(attempts_of(attempts@) =~= tried(all).take(0));
    while at < size
        invariant
            at <= size == list@.len(),
            all == rung_views(list@),
            all == rungs(
                match flag {
                    Some(given) => Some(given@),
                    None => None,
                },
                *env,
            ),
            attempts_of(attempts@) == tried(all).take(at as int),
            forall|i: int| 0 <= i < at ==> held(*env, #[trigger] all[i]) is None,
        decreases size - at,
    {
        let rung = &list[at];
        assert(all[at as int] == rung@);
        if let Some(path) = first_of_paths(env, &rung.candidates) {
            assert(wins(*env, all, at as int));
            return Ok(Executable::at(path, rung.origin));
        }
        let ghost before = attempts_of(attempts@);
        let attempt = SearchAttempt { source: rung.source.to_owned(), path: rung.path.clone() };
        let ghost added = attempt@;
        attempts.push(attempt);
        assert(attempts_of(attempts@) =~= before.push(added));
        assert(tried(all)[at as int] == added);
        at = at + 1;
        assert(before.push(added) =~= tried(all).take(at as int));
    }
    assert(tried(all).take(at as int) =~= tried(all));
    Err(Error::BrowserNotFound { attempts })
}

/// A search has one answer.
pub proof fn law_one_winner<E: Environment>(
    env: E,
    ladder: Seq<RungView>,
    first: Result<ExecutableView, Seq<SearchAttemptView>>,
    second: Result<ExecutableView, Seq<SearchAttemptView>>,
)
    requires
        found_on(env, ladder, first),
        found_on(env, ladder, second),
    ensures
        first == second,
{
    if first is Ok {
        let one = choose|at: int| #[trigger]
            wins(env, ladder, at) && first->Ok_0 == executable_at(
                held(env, ladder[at])->0,
                ladder[at].origin,
            );
        if second is Ok {
            let other = choose|at: int| #[trigger]
                wins(env, ladder, at) && second->Ok_0 == executable_at(
                    held(env, ladder[at])->0,
                    ladder[at].origin,
                );
            assert(wins(env, ladder, one) && wins(env, ladder, other));
            if one < other {
                assert(held(env, ladder[one]) is None);
            } else if other < one {
                assert(held(env, ladder[other]) is None);
            }
        } else {
            assert(held(env, ladder[one]) is None);
        }
    } else if second is Ok {
        let other = choose|at: int| #[trigger]
            wins(env, ladder, at) && second->Ok_0 == executable_at(
                held(env, ladder[at])->0,
                ladder[at].origin,
            );
        assert(held(env, ladder[other]) is None);
    }
}

/// A browser that the flag leads to wins over everything else.
pub proof fn law_the_flag_wins<E: Environment>(
    env: E,
    given: Seq<char>,
    outcome: Result<ExecutableView, Seq<SearchAttemptView>>,
)
    requires
        found_on(env, rungs(Some(given), env), outcome),
        first_runnable(env, given_paths(given, env.machine())) is Some,
    ensures
        outcome == Ok::<ExecutableView, Seq<SearchAttemptView>>(
            executable_at(
                first_runnable(env, given_paths(given, env.machine()))->0,
                OriginView::Flag,
            ),
        ),
{
    let ladder = rungs(Some(given), env);
    assert(ladder[0] == given_rung(OriginView::Flag, "--chromium-path"@, given, env.machine()));
    assert(wins(env, ladder, 0));
    law_one_winner(
        env,
        ladder,
        outcome,
        Ok(
            executable_at(
                first_runnable(env, given_paths(given, env.machine()))->0,
                OriginView::Flag,
            ),
        ),
    );
}

proof fn lemma_first_runnable<E: Environment>(env: E, paths: Seq<Seq<char>>)
    ensures
        match first_runnable(env, paths) {
            Some(path) => paths.contains(path) && env.runs(path),
            None => forall|i: int| 0 <= i < paths.len() ==> !env.runs(#[trigger] paths[i]),
        },
    decreases paths.len(),
{
    if paths.len() > 0 {
        if env.runs(paths[0]) {
            assert(paths.contains(paths[0]));
        } else {
            let rest = paths.skip(1);
            lemma_first_runnable(env, rest);
            match first_runnable(env, rest) {
                Some(path) => {
                    let i = choose|i: int| 0 <= i < rest.len() && rest[i] == path;
                    assert(paths[i + 1] == path);
                },
                None => {
                    assert forall|i: int| 0 <= i < paths.len() implies !env.runs(
                        #[trigger] paths[i],
                    ) by {
                        if i > 0 {
                            assert(rest[i - 1] == paths[i]);
                        }
                    }
                },
            }
        }
    }
}

/// What a search finds is a file that can be run, and a search that finds
/// nothing names every rung and leaves no runnable candidate behind.
pub proof fn law_what_is_found_runs<E: Environment>(
    env: E,
    ladder: Seq<RungView>,
    outcome: Result<ExecutableView, Seq<SearchAttemptView>>,
)
    requires
        found_on(env, ladder, outcome),
    ensures
        match outcome {
            Ok(executable) => env.runs(executable.path),
            Err(attempts) => attempts.len() == ladder.len() && forall|i: int, j: int|
                0 <= i < ladder.len() && 0 <= j < ladder[i].candidates.len() ==> !env.runs(
                    #[trigger] ladder[i].candidates[j],
                ),
        },
{
    match outcome {
        Ok(executable) => {
            let at = choose|at: int| #[trigger]
                wins(env, ladder, at) && executable == executable_at(
                    held(env, ladder[at])->0,
                    ladder[at].origin,
                );
            lemma_first_runnable(env, ladder[at].candidates);
        },
        Err(attempts) => {
            assert forall|i: int, j: int|
                0 <= i < ladder.len() && 0 <= j < ladder[i].candidates.len() implies !env.runs(
                #[trigger] ladder[i].candidates[j],
            ) by {
                assert(held(env, ladder[i]) is None);
                lemma_first_runnable(env, ladder[i].candidates);
            }
        },
    }
}

/// How far down the ladder an origin stands.
pub open spec fn rank_of(origin: OriginView) -> int {
    match origin {
        OriginView::Flag => 0,
        OriginView::Environment { .. } => 1,
        OriginView::SystemLocation => 2,
        OriginView::Cache => 3,
    }
}

proof fn lemma_variable_rungs<E: Environment>(env: E, list: Seq<Seq<char>>)
    ensures
        forall|i: int|
            0 <= i < variable_rungs(env, list).len() ==> (#[trigger] variable_rungs(
                env,
                list,
            )[i]).origin is Environment,
    decreases list.len(),
{
    if list.len() > 0 {
        lemma_variable_rungs(env, list.drop_last());
    }
}

/// What was given on the command line is looked at first, then what the environment names,
/// then where the system keeps programs, and then what was downloaded.
pub proof fn law_the_order_of_the_search<E: Environment>(
    flag: Option<Seq<char>>,
    env: E,
    i: int,
    j: int,
)
    requires
        0 <= i <= j < rungs(flag, env).len(),
    ensures
        rank_of(rungs(flag, env)[i].origin) <= rank_of(rungs(flag, env)[j].origin),
        flag is Some ==> rungs(flag, env)[0].origin is Flag && rungs(flag, env)[0].path == flag->0,
        flag is None ==> !(rungs(flag, env)[i].origin is Flag),
{
    let variables = variable_rungs(env, variable_names());
    lemma_variable_rungs(env, variable_names());
    let first = match flag {
        Some(given) => seq![
            given_rung(OriginView::Flag, "--chromium-path"@, given, env.machine()),
        ],
        None => Seq::empty(),
    };
    let system = single_rungs(OriginView::SystemLocation, "PATH"@, search_paths(env));
    let known = single_rungs(OriginView::SystemLocation, "known location"@, known_paths(env));
    let cached = single_rungs(OriginView::Cache, "download cache"@, cached_paths(env));
    let all = first + variables + system + known + cached;
    assert(rungs(flag, env) == all);
    lemma_rank(first, variables, system, known, cached, i);
    lemma_rank(first, variables, system, known, cached, j);
}

proof fn lemma_rank(
    first: Seq<RungView>,
    second: Seq<RungView>,
    third: Seq<RungView>,
    fourth: Seq<RungView>,
    fifth: Seq<RungView>,
    at: int,
)
    requires
        forall|i: int| 0 <= i < first.len() ==> (#[trigger] first[i]).origin is Flag,
        forall|i: int| 0 <= i < second.len() ==> (#[trigger] second[i]).origin is Environment,
        forall|i: int| 0 <= i < third.len() ==> (#[trigger] third[i]).origin is SystemLocation,
        forall|i: int| 0 <= i < fourth.len() ==> (#[trigger] fourth[i]).origin is SystemLocation,
        forall|i: int| 0 <= i < fifth.len() ==> (#[trigger] fifth[i]).origin is Cache,
        0 <= at < (first + second + third + fourth + fifth).len(),
    ensures
        rank_of((first + second + third + fourth + fifth)[at].origin) == if at < first.len() {
            0int
        } else if at < first.len() + second.len() {
            1
        } else if at < first.len() + second.len() + third.len() + fourth.len() {
            2
        } else {
            3
        },
{
    let all = first + second + third + fourth + fifth;
    let one = first.len();
    let two = one + second.len();
    let three = two + third.len();
    let four = three + fourth.len();
    if at < one {
        assert(all[at] == first[at]);
    } else if at < two {
        assert(all[at] == second[at - one]);
    } else if at < three {
        assert(all[at] == third[at - two]);
    } else if at < four {
        assert(all[at] == fourth[at - three]);
    } else {
        assert(all[at] == fifth[at - four]);
    }
}

/// A variable that is set names a browser, in the order of the list; one that is not set
/// names none.
pub proof fn law_variables_that_are_set_name_a_browser<E: Environment>(
    env: E,
    list: Seq<Seq<char>>,
    name: Seq<char>,
)
    ensures
        env.variable(name) is None ==> variable_rungs(env, list.push(name)) == variable_rungs(
            env,
            list,
        ),
        env.variable(name) matches Some(value) ==> variable_rungs(env, list.push(name))
            == variable_rungs(env, list).push(
            RungView {
                origin: OriginView::Environment { variable: name },
                source: name,
                path: value,
                candidates: given_paths(value, env.machine()),
            },
        ),
        variable_rungs(env, Seq::empty()).len() == 0,
        variable_names() == seq![
            "RCHTMLTOPDF_CHROMIUM"@,
            "CHROME_PATH"@,
            "CHROMIUM_PATH"@,
            "PUPPETEER_EXECUTABLE_PATH"@,
        ],
{
    assert(list.push(name).drop_last() =~= list);
    assert(list.push(name).last() == name);
}

/// Of some paths the first that can be run is taken, and none where none can be.
pub proof fn law_the_first_that_runs_is_taken<E: Environment>(
    env: E,
    paths: Seq<Seq<char>>,
    at: int,
)
    requires
        0 <= at <= paths.len(),
        forall|i: int| 0 <= i < at ==> !env.runs(#[trigger] paths[i]),
    ensures
        at < paths.len() && env.runs(paths[at]) ==> first_runnable(env, paths) == Some(paths[at]),
        at == paths.len() ==> first_runnable(env, paths) is None,
    decreases at,
{
    if at > 0 {
        assert(!env.runs(paths[0]));
        assert forall|i: int| 0 <= i < at - 1 implies !env.runs(#[trigger] paths.skip(1)[i]) by {
            assert(paths.skip(1)[i] == paths[i + 1]);
        }
        law_the_first_that_runs_is_taken(env, paths.skip(1), at - 1);
    }
}

/// A path that was given is taken as it is first; then the executables below it, by their
/// names, best first.
pub proof fn law_what_a_given_path_may_mean(given: Seq<char>, platform: Platform)
    requires
        !is_bundle(given),
        !(platform is Windows),
    ensures
        given_paths(given, platform).len() == 16,
        given_paths(given, platform)[0] == given,
        given_paths(given, platform)[1] == joined(given, "chrome-headless-shell"@),
        given_paths(given, platform)[2] == joined(given, "chromium"@),
        given_paths(given, platform)[3] == joined(given, "chromium-browser"@),
        given_paths(given, platform)[4] == joined(given, "google-chrome"@),
        given_paths(given, platform)[5] == joined(given, "google-chrome-stable"@),
        platform is Linux ==> given_paths(given, platform)[6] == joined(
            joined(given, "chrome-headless-shell"@ + "-"@ + "linux-arm64"@),
            "chrome-headless-shell"@,
        ),
        platform is Linux ==> given_paths(given, platform)[11] == joined(
            joined(given, "chrome-headless-shell"@ + "-"@ + "linux64"@),
            "chrome-headless-shell"@,
        ),
        platform is MacOs ==> given_paths(given, platform)[6] == joined(
            joined(given, "chrome-headless-shell"@ + "-"@ + "mac-arm64"@),
            "chrome-headless-shell"@,
        ),
{
    reveal_strlit("");
    let suffix = suffix_of(platform);
    assert(suffix =~= Seq::empty());
    assert forall|name: Seq<char>| #[trigger] (name + suffix) == name by {
        assert(name + suffix =~= name);
    }
    let one = below(given, executable_names(), suffix);
    let two = unpacked(given, executable_names(), slug_of(platform, true), suffix);
    let three = unpacked(given, executable_names(), slug_of(platform, false), suffix);
    assert(given_paths(given, platform) =~= seq![given] + one + two + three);
    assert(one.len() == 5 && two.len() == 5 && three.len() == 5);
    assert(given_paths(given, platform)[6] == two[0]);
    assert(given_paths(given, platform)[11] == three[0]);
    assert(two[0] == joined(
        joined(given, "chrome-headless-shell"@ + "-"@ + slug_of(platform, true)),
        "chrome-headless-shell"@ + suffix,
    ));
    assert(three[0] == joined(
        joined(given, "chrome-headless-shell"@ + "-"@ + slug_of(platform, false)),
        "chrome-headless-shell"@ + suffix,
    ));
}

proof fn lemma_split_len(text: Seq<char>)
    ensures
        split_at_colons(text).len() > 0,
    decreases text.len(),
{
    if text.len() > 0 {
        lemma_split_len(text.drop_last());
    }
}

/// A search path is parted at its colons, and what stands between two of them is one
/// directory.
pub proof fn law_a_search_path_is_parted_at_its_colons(first: Seq<char>, second: Seq<char>)
    ensures
        split_at_colons(first + ":"@ + second) == split_at_colons(first) + split_at_colons(second),
        !second.contains(':') ==> split_at_colons(second) == seq![second],
    decreases second.len(),
{
    reveal_strlit(":");
    let all = first + ":"@ + second;
    lemma_split_len(first);
    if second.len() == 0 {
        assert(all.drop_last() =~= first);
        assert(all.last() == ':');
        assert(split_at_colons(all) =~= split_at_colons(first) + split_at_colons(second));
        assert(second =~= Seq::empty());
    } else {
        assert(all.drop_last() =~= first + ":"@ + second.drop_last());
        assert(all.last() == second.last());
        law_a_search_path_is_parted_at_its_colons(first, second.drop_last());
        lemma_split_len(second.drop_last());
        assert(split_at_colons(all) =~= split_at_colons(first) + split_at_colons(second));
        if !second.contains(':') {
            assert(second.contains(second[second.len() - 1]));
            assert forall|c: char| second.drop_last().contains(c) implies second.contains(c) by {
                let i = choose|i: int|
                    0 <= i < second.drop_last().len() && second.drop_last()[i] == c;
                assert(second[i] == c);
            }
            assert(second.drop_last().push(second.last()) =~= second);
            assert(split_at_colons(second) =~= seq![second]);
        }
    }
}

/// The executables are looked for directory by directory.
pub proof fn law_directory_by_directory(
    first: Seq<Seq<char>>,
    second: Seq<Seq<char>>,
    directory: Seq<char>,
    suffix: Seq<char>,
    at: int,
)
    ensures
        in_directories(first + second, suffix) == in_directories(first, suffix) + in_directories(
            second,
            suffix,
        ),
        in_directories(seq![directory], suffix).len() == 5,
        0 <= at < 5 ==> in_directories(seq![directory], suffix)[at] == joined(
            directory,
            executable_names()[at] + suffix,
        ),
    decreases second.len(),
{
    reveal_with_fuel(in_directories, 2);
    assert(seq![directory].drop_last() =~= Seq::empty());
    let own = below(directory, executable_names(), suffix);
    assert(in_directories(seq![directory], suffix) =~= own);
    if second.len() == 0 {
        assert(first + second =~= first);
        assert(in_directories(first, suffix) + in_directories(second, suffix) =~= in_directories(
            first,
            suffix,
        ));
    } else {
        assert((first + second).drop_last() =~= first + second.drop_last());
        assert((first + second).last() == second.last());
        law_directory_by_directory(first, second.drop_last(), directory, suffix, at);
        assert(in_directories(first + second, suffix) =~= in_directories(first, suffix)
            + in_directories(second, suffix));
    }
}

/// Downloads are kept where a variable says, or else where the platform keeps such things,
/// below the home directory if nothing else is said.
pub proof fn law_where_downloads_are_kept<E: Environment>(env: E)
    ensures
        env.variable("RCHTMLTOPDF_CACHE_DIR"@) matches Some(directory) ==> cache_of(env) == Some(
            directory,
        ),
        env.variable("RCHTMLTOPDF_CACHE_DIR"@) is None && env.machine() is Linux ==> {
            &&& env.variable("XDG_CACHE_HOME"@) matches Some(base) ==> cache_of(env) == Some(
                joined(base, "rchtmltopdf"@),
            )
            &&& env.variable("XDG_CACHE_HOME"@) is None && env.home_directory() is Some
                ==> cache_of(env) == Some(
                joined(joined(env.home_directory()->0, ".cache"@), "rchtmltopdf"@),
            )
            &&& env.variable("XDG_CACHE_HOME"@) is None && env.home_directory() is None
                ==> cache_of(env) is None
        },
        env.variable("RCHTMLTOPDF_CACHE_DIR"@) is None && env.machine() is MacOs
            && env.home_directory() is Some ==> cache_of(env) == Some(
            joined(
                joined(joined(env.home_directory()->0, "Library"@), "Caches"@),
                "rchtmltopdf"@,
            ),
        ),
{
}

/// A browser whose last name speaks of the headless shell is one, whatever its case, and
/// every other is a full browser.
pub proof fn law_the_flavour_of_a_browser(path: Seq<char>, origin: OriginView)
    ensures
        last_name(path) is None ==> executable_at(path, origin).flavour == Flavour::FullBrowser
            || occurs(Seq::empty(), "headless-shell"@),
        last_name(path) matches Some(name) ==> {
            &&& occurs(lowered(name), "headless-shell"@) ==> executable_at(path, origin).flavour
                == Flavour::HeadlessShell
            &&& !occurs(lowered(name), "headless-shell"@) ==> executable_at(path, origin).flavour
                == Flavour::FullBrowser
        },
        executable_at(path, origin).path == path,
        executable_at(path, origin).origin == origin,
{
}

/// Where each platform is known to install browsers, and where a download of the pinned
/// version is kept: that of the newer machines first.
pub proof fn law_where_browsers_are_known_to_be<E: Environment>(env: E, cache: Seq<char>, arm: bool)
    ensures
        env.machine() is Linux ==> known_paths(env) == seq![
            "/opt/google/chrome/chrome"@,
            "/opt/chromium.org/chromium/chrome"@,
            "/snap/bin/chromium"@,
        ],
        env.machine() is MacOs ==> known_paths(env).len() >= 3 && known_paths(env)[0] == joined(
            "/Applications"@,
            "Google Chrome for Testing.app/Contents/MacOS/Google Chrome for Testing"@,
        ) && known_paths(env)[1] == joined(
            "/Applications"@,
            "Chromium.app/Contents/MacOS/Chromium"@,
        ) && known_paths(env)[2] == joined(
            "/Applications"@,
            "Google Chrome.app/Contents/MacOS/Google Chrome"@,
        ),
        env.machine() is MacOs && env.home_directory() is Some ==> known_paths(env).len() == 6
            && known_paths(env)[3] == joined(
            joined(env.home_directory()->0, "Applications"@),
            "Google Chrome for Testing.app/Contents/MacOS/Google Chrome for Testing"@,
        ),
        cache_of(env) is None ==> cached_paths(env).len() == 0,
        cache_of(env) is Some && env.machine() is Linux ==> cached_paths(env) == seq![
            joined(
                joined(joined(cache_of(env)->0, "138.0.7204.49"@), "chrome-headless-shell-"@ + "linux-arm64"@),
                "chrome-headless-shell"@,
            ),
            joined(
                joined(joined(cache_of(env)->0, "138.0.7204.49"@), "chrome-headless-shell-"@ + "linux64"@),
                "chrome-headless-shell"@,
            ),
        ],
        cached_path(cache, Platform::Windows, arm) == joined(
            joined(joined(cache, "138.0.7204.49"@), "chrome-headless-shell-"@ + "win64"@),
            "chrome-headless-shell"@ + ".exe"@,
        ),
{
    reveal_strlit("");
    assert forall|name: Seq<char>| #[trigger] (name + ""@) == name by {
        assert(name + ""@ =~= name);
    }
    if env.machine() is MacOs {
        let own = below("/Applications"@, application_names(), ""@);
        assert(known_paths(env)[0] == own[0]);
        assert(known_paths(env)[1] == own[1]);
        assert(known_paths(env)[2] == own[2]);
        if let Some(home) = env.home_directory() {
            let other = below(joined(home, "Applications"@), application_names(), ""@);
            assert(known_paths(env)[3] == other[0]);
        }
    }
    assert("chrome-headless-shell"@ + ""@ == "chrome-headless-shell"@);
    assert(cache_of(env) is Some && env.machine() is Linux ==> cached_paths(env) =~= seq![
        joined(
            joined(joined(cache_of(env)->0, "138.0.7204.49"@), "chrome-headless-shell-"@ + "linux-arm64"@),
            "chrome-headless-shell"@,
        ),
        joined(
            joined(joined(cache_of(env)->0, "138.0.7204.49"@), "chrome-headless-shell-"@ + "linux64"@),
            "chrome-headless-shell"@,
        ),
    ]);
}

/// How the origin of a browser is told.
pub proof fn law_how_an_origin_is_told(variable: Seq<char>)
    ensures
        origin_text(OriginView::Flag) == "--chromium-path"@,
        origin_text(OriginView::Environment { variable }) == "$"@ + variable,
        origin_text(OriginView::SystemLocation) == "a system location"@,
        origin_text(OriginView::Cache) == "the cache directory"@,
{
}

/// A bundle is a path whose last name ends as one, with something before that; what is in
/// it is looked for behind the path itself.
pub proof fn law_a_bundle_is_looked_into(given: Seq<char>, platform: Platform, name: Seq<char>)
    requires
        last_name(given) == Some(name),
    ensures
        is_bundle(given) <==> name.len() > 4 && ".app"@.is_suffix_of(name),
        is_bundle(given) ==> given_paths(given, platform).len() == 20 && given_paths(
            given,
            platform,
        )[0] == given && given_paths(given, platform)[1] == joined(
            joined(joined(given, "Contents"@), "MacOS"@),
            "Google Chrome for Testing"@,
        ) && given_paths(given, platform)[2] == joined(
            joined(joined(given, "Contents"@), "MacOS"@),
            "Chromium"@,
        ),
{
    reveal_strlit("");
    if is_bundle(given) {
        let own = below(joined(joined(given, "Contents"@), "MacOS"@), bundle_names(), ""@);
        assert("Google Chrome for Testing"@ + ""@ =~= "Google Chrome for Testing"@);
        assert("Chromium"@ + ""@ =~= "Chromium"@);
        assert(given_paths(given, platform)[1] == own[0]);
        assert(given_paths(given, platform)[2] == own[1]);
    }
}

/// On Windows a browser is looked for below each of the directories that hold programs, and
/// downloads are kept with the other local data.
pub proof fn law_where_windows_keeps_things<E: Environment>(
    env: E,
    list: Seq<Seq<char>>,
    name: Seq<char>,
)
    ensures
        env.variable(name) is None ==> windows_paths(env, list.push(name)) == windows_paths(
            env,
            list,
        ),
        env.variable(name) matches Some(root) ==> windows_paths(env, list.push(name))
            == windows_paths(env, list).push(
            joined(
                joined(joined(joined(root, "Google"@), "Chrome"@), "Application"@),
                "chrome.exe"@,
            ),
        ),
        windows_roots() == seq!["PROGRAMFILES"@, "PROGRAMFILES(X86)"@, "LOCALAPPDATA"@],
        env.machine() is Windows ==> known_paths(env) == windows_paths(env, windows_roots()),
        env.variable("RCHTMLTOPDF_CACHE_DIR"@) is None && env.machine() is Windows && env.variable(
            "LOCALAPPDATA"@,
        ) is Some ==> cache_of(env) == Some(
            joined(joined(env.variable("LOCALAPPDATA"@)->0, "rchtmltopdf"@), "cache"@),
        ),
{
    assert(list.push(name).drop_last() =~= list);
    assert(list.push(name).last() == name);
}

/// Every executable on the search path is looked at by itself, and a search that found
/// nothing tells of every place, in the order in which they were looked at.
pub proof fn law_every_place_is_looked_at<E: Environment>(
    env: E,
    origin: OriginView,
    source: Seq<char>,
    paths: Seq<Seq<char>>,
    ladder: Seq<RungView>,
    at: int,
)
    ensures
        single_rungs(origin, source, paths).len() == paths.len(),
        0 <= at < paths.len() ==> single_rungs(origin, source, paths)[at].path == paths[at]
            && single_rungs(origin, source, paths)[at].candidates == seq![paths[at]]
            && single_rungs(origin, source, paths)[at].origin == origin,
        tried(ladder).len() == ladder.len(),
        0 <= at < ladder.len() ==> tried(ladder)[at].source == ladder[at].source
            && tried(ladder)[at].path == ladder[at].path,
        env.variable("PATH"@) is None ==> search_paths(env).len() == 0,
        env.variable("PATH"@) is Some && !(env.machine() is Windows) ==> search_paths(env)
            == in_directories(split_at_colons(env.variable("PATH"@)->0), Seq::empty()),
{
    reveal_strlit("");
    assert(""@ =~= Seq::empty());
}

} // verus!
