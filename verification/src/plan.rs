//! What a conversion will do, decided before anything is done.
//!
//! A plan holds every decision that the settings of one object lead to. A
//! command to the browser is its method and its parameters as JSON text. What a
//! length comes to in inches is left to whoever sends the print call: here a
//! length keeps the number and the unit that it was written with.

use crate::clock::Clock;
use crate::document::{has_url_scheme, names_url, written_as};
use crate::encoding::{js_string, percent_decode, percent_decoded, script_string, text_from};
use crate::file_access::{local_path, path_of, FileAccess, FileAccessView, Policy};
use crate::intercept::{Charset, Credentials, Rules};
use crate::launch::{default_options, LaunchOptions, LaunchOptionsView};
use crate::placeholder::{asks_for_a_section, names_a_section, Context, ContextView};
use crate::settings::{
    band_is_empty, copy_maybe, copy_pairs, default_load_settings, maybe_real, outline_is_wanted,
    pairs_of, settings_of, Band, BandView, GlobalSettings, GlobalSettingsView, Length, LengthView,
    LinkSettings, LoadSettings, LoadSettingsView, MediaType, ObjectKind, ObjectSettings,
    ObjectSettingsView, Orientation, OutlineSettings, OutlineSettingsView, PageSetup, PageSetupView,
    Pair, PairView, Real, TocSettings, TocSettingsView, WebSettings, WebSettingsView,
};
use crate::text::{begins, decimal, maybe, push_number, same, texts};
use crate::tokenizer::copy_texts;
use vstd::prelude::*;
use vstd::utf8::encode_utf8;

verus! {

/// A command to the browser. The parameters are JSON text.
#[derive(Debug, PartialEq, Eq)]
pub struct Command {
    pub method: &'static str,
    pub params: String,
}

/// A [`Command`] by the characters it holds.
pub struct CommandView {
    pub method: Seq<char>,
    pub params: Seq<char>,
}

impl View for Command {
    type V = CommandView;

    open spec fn view(&self) -> CommandView {
        CommandView { method: self.method@, params: self.params@ }
    }
}

/// The commands of a list, by the characters they hold.
pub open spec fn commands_of(list: Seq<Command>) -> Seq<CommandView> {
    list.map_values(|command: Command| command@)
}

impl Command {
    pub fn new(method: &'static str, params: String) -> (command: Command)
        ensures
            command@ == (CommandView { method: method@, params: params@ }),
    {
        Command { method, params }
    }
}

/// What a page is waited for after it has loaded.
#[derive(Debug, PartialEq, Eq)]
pub enum Settle {
    /// So many milliseconds.
    Delay(u64),
    /// A status that the page sets itself.
    WindowStatus(String),
}

/// A [`Settle`] by the characters it holds.
pub enum SettleView {
    Delay(u64),
    WindowStatus(Seq<char>),
}

impl View for Settle {
    type V = SettleView;

    open spec fn view(&self) -> SettleView {
        match *self {
            Settle::Delay(delay) => SettleView::Delay(delay),
            Settle::WindowStatus(wanted) => SettleView::WindowStatus(wanted@),
        }
    }
}

/// A stylesheet that is put into the document.
#[derive(Debug, PartialEq, Eq)]
pub enum Injection {
    /// A file whose text is put in.
    File(String),
    /// A URL that the document is made to link to.
    Link(String),
}

/// An [`Injection`] by the characters it holds.
pub enum InjectionView {
    File(Seq<char>),
    Link(Seq<char>),
}

impl View for Injection {
    type V = InjectionView;

    open spec fn view(&self) -> InjectionView {
        match *self {
            Injection::File(path) => InjectionView::File(path@),
            Injection::Link(url) => InjectionView::Link(url@),
        }
    }
}

/// What a stylesheet of the command line is: a URL where it has a scheme, and
/// otherwise a file.
pub open spec fn injection_of(written: Seq<char>) -> InjectionView {
    if names_url(written) {
        InjectionView::Link(written)
    } else {
        InjectionView::File(written)
    }
}

/// What a stylesheet of the command line is.
pub fn injection(written: &str) -> (injection: Injection)
    ensures
        injection@ == injection_of(written@),
{
    if has_url_scheme(written) {
        Injection::Link(written.to_owned())
    } else {
        Injection::File(written.to_owned())
    }
}

/// How a document is loaded.
#[derive(Debug, PartialEq, Eq)]
pub struct LoadPlan {
    pub inject: Option<Injection>,
    pub settle: Settle,
    /// Scripts to run, in order.
    pub scripts: Vec<String>,
}

/// A [`LoadPlan`] by the characters it holds.
pub struct LoadPlanView {
    pub inject: Option<InjectionView>,
    pub settle: SettleView,
    pub scripts: Seq<Seq<char>>,
}

impl View for LoadPlan {
    type V = LoadPlanView;

    open spec fn view(&self) -> LoadPlanView {
        LoadPlanView {
            inject: match self.inject {
                Some(injection) => Some(injection@),
                None => None,
            },
            settle: self.settle@,
            scripts: texts(self.scripts@),
        }
    }
}

/// How a document is loaded. A status to wait for takes the place of the delay.
pub open spec fn load_plan_of(load: LoadSettingsView) -> LoadPlanView {
    LoadPlanView {
        inject: match load.user_style_sheet {
            Some(written) => Some(injection_of(written)),
            None => None,
        },
        settle: match load.window_status {
            Some(wanted) => SettleView::WindowStatus(wanted),
            None => SettleView::Delay(load.javascript_delay),
        },
        scripts: load.run_scripts,
    }
}

impl LoadPlan {
    /// How a document is loaded.
    pub fn new(load: &LoadSettings) -> (plan: LoadPlan)
        ensures
            plan@ == load_plan_of(load@),
    {
        LoadPlan {
            inject: match &load.user_style_sheet {
                Some(written) => Some(injection(written)),
                None => None,
            },
            settle: match &load.window_status {
                Some(wanted) => Settle::WindowStatus(wanted.clone()),
                None => Settle::Delay(load.javascript_delay),
            },
            scripts: copy_texts(&load.run_scripts),
        }
    }
}

/// The settings of a table of contents, for an object that is one.
pub open spec fn toc_of(object: ObjectSettingsView) -> Option<TocSettingsView> {
    if object.kind == ObjectKind::Toc {
        Some(object.toc)
    } else {
        None
    }
}

/// The settings of a table of contents, for an object that is one.
pub fn toc(object: &ObjectSettings) -> (toc: Option<TocSettings>)
    ensures
        match toc {
            Some(toc) => toc_of(object@) == Some(toc@),
            None => toc_of(object@) is None,
        },
{
    match object.kind {
        ObjectKind::Toc => Some(object.toc.clone()),
        _ => None,
    }
}

/// The header and the footer of a document.
#[derive(Debug, PartialEq, Eq)]
pub struct Bands {
    pub header: Band,
    pub footer: Band,
}

/// A [`Bands`] by the characters it holds.
pub struct BandsView {
    pub header: BandView,
    pub footer: BandView,
}

impl View for Bands {
    type V = BandsView;

    open spec fn view(&self) -> BandsView {
        BandsView { header: self.header@, footer: self.footer@ }
    }
}

/// Whether a cell asks for a heading of the document.
pub open spec fn cell_asks(cell: Option<Seq<char>>) -> bool {
    cell is Some && asks_for_a_section(cell->0)
}

/// Whether a band may need the headings of the document. One that is a document
/// itself may ask for anything.
pub open spec fn band_asks(band: BandView) -> bool {
    band.html is Some || cell_asks(band.left) || cell_asks(band.center) || cell_asks(band.right)
}

fn asks(cell: &Option<String>) -> (yes: bool)
    ensures
        yes == cell_asks(maybe(*cell)),
{
    match cell {
        Some(text) => names_a_section(text),
        None => false,
    }
}

fn band_may_ask(band: &Band) -> (yes: bool)
    ensures
        yes == band_asks(band@),
{
    band.html.is_some() || asks(&band.left) || asks(&band.center) || asks(&band.right)
}

impl Bands {
    /// Whether there is nothing in either band.
    pub fn is_empty(&self) -> (yes: bool)
        ensures
            yes == (band_is_empty(self@.header) && band_is_empty(
                self@.footer,
            )),
    {
        self.header.is_empty() && self.footer.is_empty()
    }

    /// Whether either band may need the headings of the document.
    pub fn names_a_section(&self) -> (yes: bool)
        ensures
            yes == (band_asks(self@.header) || band_asks(self@.footer)),
    {
        band_may_ask(&self.header) || band_may_ask(&self.footer)
    }

    /// Whether either band is a document itself.
    pub fn any_document(&self) -> (yes: bool)
        ensures
            yes == (self@.header.html is Some || self@.footer.html is Some),
    {
        self.header.html.is_some() || self.footer.html.is_some()
    }
}

/// Whether the browser is asked for the outline of a document.
pub open spec fn wants_outline(outline: OutlineSettingsView, object: ObjectSettingsView) -> bool {
    (outline_is_wanted(outline) || band_asks(object.header) || band_asks(
        object.footer,
    )) && object.in_outline
}

/// Whether the browser is asked for the outline of a document: for the file, or
/// for a band that names a heading, and only where the document takes part.
pub fn outline_wanted(outline: &OutlineSettings, object: &ObjectSettings) -> (yes: bool)
    ensures
        yes == wants_outline(outline@, object@),
{
    (outline.wanted() || band_may_ask(&object.header) || band_may_ask(&object.footer))
        && object.in_outline
}

/// How the pages of a document are numbered.
#[derive(Clone, Copy, Debug, PartialEq, Eq)]
pub struct Numbering {
    /// Whether its pages count.
    pub counted: bool,
    pub page_offset: i64,
}

/// What is done to a document once it is printed.
#[derive(Debug, PartialEq, Eq)]
pub struct Finishing {
    pub outline: OutlineSettings,
    pub bands: Bands,
    pub numbering: Numbering,
    pub links: LinkSettings,
    /// Whether its headings lead back to the table of contents.
    pub back_links: bool,
    pub document_url: String,
}

/// A [`Finishing`] by the characters it holds.
pub struct FinishingView {
    pub outline: OutlineSettingsView,
    pub bands: BandsView,
    pub numbering: Numbering,
    pub links: LinkSettings,
    pub back_links: bool,
    pub document_url: Seq<char>,
}

impl View for Finishing {
    type V = FinishingView;

    open spec fn view(&self) -> FinishingView {
        FinishingView {
            outline: self.outline@,
            bands: self.bands@,
            numbering: self.numbering,
            links: self.links,
            back_links: self.back_links,
            document_url: self.document_url@,
        }
    }
}

/// What is done to a document once it is printed. The pages of a cover do not
/// count.
pub open spec fn finishing_of(
    global: GlobalSettingsView,
    object: ObjectSettingsView,
    document_url: Seq<char>,
) -> FinishingView {
    FinishingView {
        outline: global.outline,
        bands: BandsView { header: object.header, footer: object.footer },
        numbering: Numbering {
            counted: object.kind != ObjectKind::Cover,
            page_offset: global.page_offset,
        },
        links: object.links,
        back_links: object.toc.back_links,
        document_url,
    }
}

/// What is done to a document once it is printed.
pub fn finish(global: &GlobalSettings, object: &ObjectSettings, document_url: &str) -> (finishing:
    Finishing)
    ensures
        finishing@ == finishing_of(global@, object@, document_url@),
{
    let counted = match object.kind {
        ObjectKind::Cover => false,
        _ => true,
    };
    Finishing {
        outline: global.outline.clone(),
        bands: Bands { header: object.header.clone(), footer: object.footer.clone() },
        numbering: Numbering { counted, page_offset: global.page_offset },
        links: object.links,
        back_links: object.toc.back_links,
        document_url: document_url.to_owned(),
    }
}

/// What the placeholders of a document stand for.
pub open spec fn context_of(
    global: GlobalSettingsView,
    object: ObjectSettingsView,
    clock: Clock,
) -> ContextView {
    ContextView {
        webpage: match object.input {
            Some(input) => written_as(input),
            None => Seq::empty(),
        },
        title: match global.title {
            Some(title) => title,
            None => Seq::empty(),
        },
        replacements: object.replacements,
        clock,
    }
}

/// What the placeholders of a document stand for.
pub fn context(global: &GlobalSettings, object: &ObjectSettings, clock: Clock) -> (context: Context)
    ensures
        context@ == context_of(global@, object@, clock),
{
    Context {
        webpage: match &object.input {
            Some(input) => input.as_written(),
            None => String::new(),
        },
        title: match &global.title {
            Some(title) => title.clone(),
            None => String::new(),
        },
        replacements: copy_pairs(&object.replacements),
        clock,
    }
}

/// What the command line says about local files.
pub fn file_access(web: &WebSettings) -> (policy: Policy)
    ensures
        policy.enabled == web@.local_file_access,
        texts(policy.allowed@) == web@.allowed_paths,
{
    Policy { enabled: web.local_file_access, allowed: copy_texts(&web.allowed_paths) }
}

/// Whether rules are those that an object leads to. `allowed` are the
/// directories that are open to it and `document` its own file, as the file
/// system resolved them.
pub open spec fn are_rules_of(
    rules: Rules,
    object: ObjectSettingsView,
    document_url: Seq<char>,
    allowed: Seq<Seq<char>>,
    document: Option<Seq<char>>,
) -> bool {
    let web = object.web;
    &&& rules.files@ == (FileAccessView {
        enabled: web.local_file_access,
        allowed,
        document_is_local: path_of(document_url) is Some,
        documents: match document {
            Some(document) => if path_of(document_url) is Some {
                seq![document]
            } else {
                Seq::empty()
            },
            None => Seq::empty(),
        },
    })
    &&& rules.document@ == document_url
    &&& match (web.encoding, path_of(document_url)) {
        (Some(name), Some(path)) => rules.serve_as matches Some(charset) && charset.url@
            == document_url && charset.path@ == path && charset.name@ == name,
        _ => rules.serve_as is None,
    }
    &&& pairs_of(rules.document_headers@) == if web.propagate_custom_headers {
        Seq::empty()
    } else {
        web.custom_headers
    }
    &&& match (web.username, web.password) {
        (None, None) => rules.credentials is None,
        (username, password) => rules.credentials matches Some(credentials)
            && credentials.username@ == or_nothing(username) && credentials.password@ == or_nothing(
            password,
        ),
    }
}

/// A text, or an empty one in its place.
pub open spec fn or_nothing(text: Option<Seq<char>>) -> Seq<char> {
    match text {
        Some(text) => text,
        None => Seq::empty(),
    }
}

fn text_or_nothing(text: &Option<String>) -> (out: String)
    ensures
        out@ == or_nothing(maybe(*text)),
{
    match text {
        Some(text) => text.clone(),
        None => String::new(),
    }
}

/// The rules for the requests of a document. `allowed` are the directories that
/// are open to it and `document` its own file, as the file system resolved them.
pub fn rules(
    object: &ObjectSettings,
    document_url: &str,
    allowed: Vec<String>,
    document: Option<String>,
) -> (rules: Rules)
    ensures
        are_rules_of(rules, object@, document_url@, texts(allowed@), maybe(document)),
{
    let web = &object.web;
    let serve_as = match (&web.encoding, local_path(document_url)) {
        (Some(name), Some(path)) => Some(
            Charset { url: document_url.to_owned(), path, name: name.clone() },
        ),
        _ => None,
    };
    let document_headers = if web.propagate_custom_headers {
        let none: Vec<Pair> = Vec::new();
        assert(pairs_of(none@) =~= Seq::empty());
        none
    } else {
        copy_pairs(&web.custom_headers)
    };
    let credentials = if web.username.is_some() || web.password.is_some() {
        Some(
            Credentials {
                username: text_or_nothing(&web.username),
                password: text_or_nothing(&web.password),
            },
        )
    } else {
        None
    };
    Rules {
        files: file_access(web).about(document_url, allowed, document),
        document: document_url.to_owned(),
        serve_as,
        document_headers,
        credentials,
    }
}

/// Whether a document is one that cookies can be set for.
pub open spec fn cookies_apply(document_url: Seq<char>) -> bool {
    "http://"@.is_prefix_of(document_url) || "https://"@.is_prefix_of(document_url)
}

/// Whether a document is one that cookies can be set for.
pub fn takes_cookies(document_url: &str) -> (yes: bool)
    ensures
        yes == cookies_apply(document_url@),
{
    begins(document_url, "http://") || begins(document_url, "https://")
}

/// What a browser is started with.
pub open spec fn launch_of(
    global: GlobalSettingsView,
    object: ObjectSettingsView,
) -> LaunchOptionsView {
    LaunchOptionsView {
        no_sandbox: global.browser.no_sandbox,
        extra_args: global.browser.extra_args,
        allow_slow_scripts: !object.load.stop_slow_scripts,
        proxy: object.web.proxy,
        bypass_proxy_for: object.web.bypass_proxy_for,
        cache_dir: object.web.cache_dir,
        minimum_font_size: object.web.minimum_font_size,
        no_images: !object.web.images,
        ..default_options()
    }
}

/// What a browser is started with.
pub fn launch(global: &GlobalSettings, object: &ObjectSettings) -> (options: LaunchOptions)
    ensures
        options@ == launch_of(global@, object@),
{
    LaunchOptions {
        no_sandbox: global.browser.no_sandbox,
        extra_args: copy_texts(&global.browser.extra_args),
        user_data_dir: None,
        handshake_timeout: None,
        allow_slow_scripts: !object.load.stop_slow_scripts,
        proxy: copy_maybe(&object.web.proxy),
        bypass_proxy_for: copy_texts(&object.web.bypass_proxy_for),
        cache_dir: copy_maybe(&object.web.cache_dir),
        minimum_font_size: object.web.minimum_font_size,
        no_images: !object.web.images,
    }
}

/// A command without parameters.
pub open spec fn bare(method: Seq<char>) -> CommandView {
    CommandView { method, params: "null"@ }
}

/// The command that picks the stylesheets.
pub open spec fn media_command(media_type: MediaType) -> CommandView {
    CommandView {
        method: "Emulation.setEmulatedMedia"@,
        params: match media_type {
            MediaType::Screen => "{\"media\":\"screen\"}"@,
            MediaType::Print => "{\"media\":\"print\"}"@,
        },
    }
}

/// The command that sets the size of the window, in pixels.
pub open spec fn viewport_command(width: int, height: int) -> CommandView {
    CommandView {
        method: "Emulation.setDeviceMetricsOverride"@,
        params: "{\"width\":"@ + decimal(width) + ",\"height\":"@ + decimal(height)
            + ",\"deviceScaleFactor\":1,\"mobile\":false}"@,
    }
}

/// The command that picks the stylesheets.
pub fn emulate_media(web: &WebSettings) -> (command: Command)
    ensures
        command@ == media_command(web@.media_type),
{
    let params = match web.media_type {
        MediaType::Screen => "{\"media\":\"screen\"}",
        MediaType::Print => "{\"media\":\"print\"}",
    };
    Command { method: "Emulation.setEmulatedMedia", params: params.to_owned() }
}

fn metrics(width: u64, height: u64) -> (command: Command)
    ensures
        command@ == viewport_command(width as int, height as int),
{
    let mut params = "{\"width\":".to_owned();
    push_number(&mut params, width);
    params.push_str(",\"height\":");
    push_number(&mut params, height);
    params.push_str(",\"deviceScaleFactor\":1,\"mobile\":false}");
    Command { method: "Emulation.setDeviceMetricsOverride", params }
}

/// The command that sets the size of the window.
pub fn viewport(web: &WebSettings) -> (command: Command)
    ensures
        command@ == viewport_command(web@.viewport.0 as int, web@.viewport.1 as int),
{
    let (width, height) = web.viewport;
    metrics(width as u64, height as u64)
}

/// A cookie as the browser takes it. Its value is decoded.
pub open spec fn cookie_text(cookie: PairView, document_url: Seq<char>) -> Seq<char> {
    "{\"name\":"@ + script_string(cookie.name) + ",\"value\":"@ + script_string(
        text_from(percent_decoded(encode_utf8(cookie.value))),
    ) + ",\"url\":"@ + script_string(document_url) + "}"@
}

/// Cookies as the browser takes them, with commas between.
pub open spec fn cookie_list(cookies: Seq<PairView>, document_url: Seq<char>) -> Seq<char>
    decreases cookies.len(),
{
    if cookies.len() == 0 {
        Seq::empty()
    } else {
        cookie_list(cookies.drop_last(), document_url) + (if cookies.len() == 1 {
            Seq::empty()
        } else {
            ","@
        }) + cookie_text(cookies.last(), document_url)
    }
}

/// Whether a pair has a name.
pub open spec fn is_named(pairs: Seq<PairView>, name: Seq<char>) -> bool {
    exists|i: int| 0 <= i < pairs.len() && (#[trigger] pairs[i]).name == name
}

/// Those of the first headers whose names are not written again behind them: each
/// name once, with the last value that it is given.
pub open spec fn lasting(headers: Seq<PairView>, count: int) -> Seq<PairView>
    decreases count,
{
    if count <= 0 {
        Seq::empty()
    } else if is_named(headers.skip(count), headers[count - 1].name) {
        lasting(headers, count - 1)
    } else {
        lasting(headers, count - 1).push(headers[count - 1])
    }
}

/// Headers as the browser takes them, with commas between.
pub open spec fn header_list(headers: Seq<PairView>) -> Seq<char>
    decreases headers.len(),
{
    if headers.len() == 0 {
        Seq::empty()
    } else {
        header_list(headers.drop_last()) + (if headers.len() == 1 {
            Seq::empty()
        } else {
            ","@
        }) + (script_string(headers.last().name) + ":"@ + script_string(headers.last().value))
    }
}

/// The command that sets cookies.
pub open spec fn cookies_command(cookies: Seq<PairView>, document_url: Seq<char>) -> CommandView {
    CommandView {
        method: "Network.setCookies"@,
        params: "{\"cookies\":["@ + cookie_list(cookies, document_url) + "]}"@,
    }
}

/// The command that sets headers for every request.
pub open spec fn headers_command(headers: Seq<PairView>) -> CommandView {
    CommandView {
        method: "Network.setExtraHTTPHeaders"@,
        params: "{\"headers\":{"@ + header_list(lasting(headers, headers.len() as int)) + "}}"@,
    }
}

/// The command that turns scripts off.
pub open spec fn no_scripts_command() -> CommandView {
    CommandView {
        method: "Emulation.setScriptExecutionDisabled"@,
        params: "{\"value\":true}"@,
    }
}

/// A list with one item, or none.
pub open spec fn only_if(wanted: bool, command: CommandView) -> Seq<CommandView> {
    if wanted {
        seq![command]
    } else {
        Seq::empty()
    }
}

/// The commands that a page is prepared with, in order.
pub open spec fn prepare_of(
    object: ObjectSettingsView,
    document_url: Seq<char>,
) -> Seq<CommandView> {
    let web = object.web;
    seq![
        bare("Page.enable"@),
        bare("Network.enable"@),
        media_command(web.media_type),
        viewport_command(web.viewport.0 as int, web.viewport.1 as int),
    ] + only_if(
        web.cookies.len() > 0 && cookies_apply(document_url),
        cookies_command(web.cookies, document_url),
    ) + only_if(
        web.propagate_custom_headers && web.custom_headers.len() > 0,
        headers_command(web.custom_headers),
    ) + only_if(!web.javascript, no_scripts_command())
}

fn push_command(list: &mut Vec<Command>, command: Command)
    ensures
        commands_of(final(list)@) == commands_of(old(list)@).push(command@),
{
    let ghost before = commands_of(list@);
    let ghost added = command@;
    list.push(command);
    assert(commands_of(list@) =~= before.push(added));
}

fn set_cookies(cookies: &Vec<Pair>, document_url: &str) -> (command: Command)
    ensures
        command@ == cookies_command(pairs_of(cookies@), document_url@),
{
    let mut params = "{\"cookies\":[".to_owned();
    let ghost start = params@;
    let ghost all = pairs_of(cookies@);
    let size: usize = cookies.len();
    let mut at: usize = 0;
    assert(all.take(0) =~= Seq::empty());
    assert(params@ =~= start + cookie_list(all.take(0), document_url@));
    while at < size
        invariant
            at <= size == cookies@.len(),
            all == pairs_of(cookies@),
            params@ == start + cookie_list(all.take(at as int), document_url@),
        decreases size - at,
    {
        let ghost before = cookie_list(all.take(at as int), document_url@);
        assert(all.take(at + 1).drop_last() =~= all.take(at as int));
        let cookie = &cookies[at];
        assert(all.take(at + 1).last() == cookie@);
        let ghost comma: Seq<char> = if at == 0 {
            Seq::empty()
        } else {
            ","@
        };
        if at > 0 {
            params.push_str(",");
        }
        assert(params@ =~= start + (before + comma));
        let ghost so_far = params@;
        params.push_str("{\"name\":");
        params.push_str(&js_string(&cookie.name));
        params.push_str(",\"value\":");
        params.push_str(&js_string(&percent_decode(&cookie.value)));
        params.push_str(",\"url\":");
        params.push_str(&js_string(document_url));
        params.push_str("}");
        assert(params@ =~= so_far + cookie_text(cookie@, document_url@));
        assert(params@ =~= start + (before + comma + cookie_text(cookie@, document_url@)));
        at = at + 1;
    }
    assert(all.take(at as int) =~= all);
    params.push_str("]}");
    Command { method: "Network.setCookies", params }
}

fn named_from(pairs: &Vec<Pair>, from: usize, name: &str) -> (yes: bool)
    requires
        from <= pairs@.len(),
    ensures
        yes == is_named(pairs_of(pairs@).skip(from as int), name@),
{
    let ghost all = pairs_of(pairs@);
    let ghost rest = all.skip(from as int);
    let mut at: usize = from;
    while at < pairs.len()
        invariant
            from <= at <= pairs@.len(),
            all == pairs_of(pairs@),
            rest == all.skip(from as int),
            forall|i: int| 0 <= i < at - from ==> (#[trigger] rest[i]).name != name@,
        decreases pairs@.len() - at,
    {
        assert(rest[at - from] == pairs@[at as int]@);
        if same(&pairs[at].name, name) {
            return true;
        }
        at = at + 1;
    }
    false
}

/// Headers, each name once, with the last value that it is given.
fn last_values(headers: &Vec<Pair>) -> (list: Vec<Pair>)
    ensures
        pairs_of(list@) == lasting(pairs_of(headers@), headers@.len() as int),
{
    let ghost all = pairs_of(headers@);
    let size: usize = headers.len();
    let mut list: Vec<Pair> = Vec::new();
    let mut at: usize = 0;
    assert(pairs_of(list@) =~= Seq::empty());
    while at < size
        invariant
            at <= size == headers@.len(),
            all == pairs_of(headers@),
            pairs_of(list@) == lasting(all, at as int),
        decreases size - at,
    {
        assert(all[at as int] == headers@[at as int]@);
        if !named_from(headers, at + 1, &headers[at].name) {
            let ghost before = pairs_of(list@);
            list.push(headers[at].clone());
            assert(pairs_of(list@) =~= before.push(all[at as int]));
        }
        at = at + 1;
    }
    list
}

fn set_headers(written: &Vec<Pair>) -> (command: Command)
    ensures
        command@ == headers_command(pairs_of(written@)),
{
    let headers = last_values(written);
    let mut params = "{\"headers\":{".to_owned();
    let ghost start = params@;
    let ghost all = pairs_of(headers@);
    let size: usize = headers.len();
    let mut at: usize = 0;
    assert(all.take(0) =~= Seq::empty());
    assert(params@ =~= start + header_list(all.take(0)));
    while at < size
        invariant
            at <= size == headers@.len(),
            all == pairs_of(headers@),
            params@ == start + header_list(all.take(at as int)),
        decreases size - at,
    {
        let ghost before = header_list(all.take(at as int));
        assert(all.take(at + 1).drop_last() =~= all.take(at as int));
        let header = &headers[at];
        assert(all.take(at + 1).last() == header@);
        let ghost comma: Seq<char> = if at == 0 {
            Seq::empty()
        } else {
            ","@
        };
        if at > 0 {
            params.push_str(",");
        }
        assert(params@ =~= start + (before + comma));
        let ghost so_far = params@;
        params.push_str(&js_string(&header.name));
        params.push_str(":");
        params.push_str(&js_string(&header.value));
        let ghost own = script_string(header.name@) + ":"@ + script_string(header.value@);
        assert(params@ =~= so_far + own);
        assert(params@ =~= start + (before + comma + own));
        at = at + 1;
    }
    assert(all.take(at as int) =~= all);
    params.push_str("}}");
    Command { method: "Network.setExtraHTTPHeaders", params }
}

/// The commands that a page is prepared with: the domains first, then what is
/// emulated, then what the requests carry.
pub fn prepare(object: &ObjectSettings, document_url: &str) -> (list: Vec<Command>)
    ensures
        commands_of(list@) == prepare_of(object@, document_url@),
{
    let web = &object.web;
    let mut list: Vec<Command> = Vec::new();
    push_command(&mut list, Command::new("Page.enable", "null".to_owned()));
    push_command(&mut list, Command::new("Network.enable", "null".to_owned()));
    push_command(&mut list, emulate_media(web));
    push_command(&mut list, viewport(web));
    assert(commands_of(list@) =~= seq![
        bare("Page.enable"@),
        bare("Network.enable"@),
        media_command(web@.media_type),
        viewport_command(web@.viewport.0 as int, web@.viewport.1 as int),
    ]);
    let ghost so_far = commands_of(list@);
    let cookies = web.cookies.len() > 0 && takes_cookies(document_url);
    if cookies {
        push_command(&mut list, set_cookies(&web.cookies, document_url));
    }
    assert(commands_of(list@) =~= so_far + only_if(
        cookies,
        cookies_command(web@.cookies, document_url@),
    ));
    let ghost so_far = commands_of(list@);
    let headers = web.propagate_custom_headers && web.custom_headers.len() > 0;
    if headers {
        push_command(&mut list, set_headers(&web.custom_headers));
    }
    assert(commands_of(list@) =~= so_far + only_if(headers, headers_command(web@.custom_headers)));
    let ghost so_far = commands_of(list@);
    if !web.javascript {
        push_command(
            &mut list,
            Command::new("Emulation.setScriptExecutionDisabled", "{\"value\":true}".to_owned()),
        );
    }
    assert(commands_of(list@) =~= so_far + only_if(!web.javascript, no_scripts_command()));
    list
}

/// What one edge of the sheet comes to: the sum of a margin, of a gap between a
/// band and the content in millimetres, and of what was reserved for a band
/// document in inches.
#[derive(Debug, PartialEq, Eq)]
pub struct EdgeSum {
    pub margin: Option<Length>,
    pub gap: Option<Real>,
    pub reserved: Vec<Real>,
}

/// An [`EdgeSum`] by the characters it holds.
pub struct EdgeSumView {
    pub margin: Option<LengthView>,
    pub gap: Option<Seq<char>>,
    pub reserved: Seq<Seq<char>>,
}

/// The numbers of a list, as they are spelled.
pub open spec fn reals(list: Seq<Real>) -> Seq<Seq<char>> {
    list.map_values(|number: Real| number@)
}

/// A length that may be absent.
pub open spec fn maybe_length(length: Option<Length>) -> Option<LengthView> {
    match length {
        Some(length) => Some(length@),
        None => None,
    }
}

impl View for EdgeSum {
    type V = EdgeSumView;

    open spec fn view(&self) -> EdgeSumView {
        EdgeSumView {
            margin: maybe_length(self.margin),
            gap: maybe_real(self.gap),
            reserved: reals(self.reserved@),
        }
    }
}

/// The print call.
#[derive(Debug, PartialEq, Eq)]
pub struct Print {
    pub width: Length,
    pub height: Length,
    pub top: EdgeSum,
    pub bottom: EdgeSum,
    /// No length is a margin of nothing.
    pub left: Option<Length>,
    pub right: Option<Length>,
    pub background: bool,
    pub scale: Real,
    pub outline: bool,
}

/// A [`Print`] by the characters it holds.
pub struct PrintView {
    pub width: LengthView,
    pub height: LengthView,
    pub top: EdgeSumView,
    pub bottom: EdgeSumView,
    pub left: Option<LengthView>,
    pub right: Option<LengthView>,
    pub background: bool,
    pub scale: Seq<char>,
    pub outline: bool,
}

impl View for Print {
    type V = PrintView;

    open spec fn view(&self) -> PrintView {
        PrintView {
            width: self.width@,
            height: self.height@,
            top: self.top@,
            bottom: self.bottom@,
            left: maybe_length(self.left),
            right: maybe_length(self.right),
            background: self.background,
            scale: self.scale@,
            outline: self.outline,
        }
    }
}

/// The sides of a sheet once it is turned: width and height.
pub open spec fn sides_of(page: PageSetupView) -> (LengthView, LengthView) {
    match page.orientation {
        Orientation::Portrait => (page.size.width, page.size.height),
        Orientation::Landscape => (page.size.height, page.size.width),
    }
}

/// The sides of a sheet once it is turned.
pub fn sides(page: &PageSetup) -> (sides: (Length, Length))
    ensures
        (sides.0@, sides.1@) == sides_of(page@),
{
    match page.orientation {
        Orientation::Portrait => (page.size.width.clone(), page.size.height.clone()),
        Orientation::Landscape => (page.size.height.clone(), page.size.width.clone()),
    }
}

/// Whether a band's height is that of its document: it is one, and no margin
/// was written for it.
pub open spec fn is_sized_by_document(band: BandView, named: bool) -> bool {
    band.html is Some && !named
}

/// Whether a band's height is that of its document.
pub fn sized_by_its_document(band: &Band, named: bool) -> (yes: bool)
    ensures
        yes == is_sized_by_document(band@, named),
{
    band.html.is_some() && !named
}

/// What an edge comes to beside a band. A band document that sizes itself takes
/// the margin's place, and the gap is kept only beside a band.
pub open spec fn edge_of(band: BandView, named: bool, written: LengthView) -> EdgeSumView {
    EdgeSumView {
        margin: if is_sized_by_document(band, named) {
            None
        } else {
            Some(written)
        },
        gap: if band_is_empty(band) {
            None
        } else {
            band.spacing
        },
        reserved: Seq::empty(),
    }
}

/// What an edge comes to beside a band.
fn edge(band: &Band, named: bool, written: &Length) -> (sum: EdgeSum)
    ensures
        sum@ == edge_of(band@, named, written@),
{
    let margin = if sized_by_its_document(band, named) {
        None
    } else {
        Some(written.clone())
    };
    let gap = if band.is_empty() {
        None
    } else {
        match &band.spacing {
            Some(spacing) => Some(spacing.clone()),
            None => None,
        }
    };
    let sum = EdgeSum { margin, gap, reserved: Vec::new() };
    assert(reals(sum.reserved@) =~= Seq::empty());
    sum
}

/// The print call of an object.
pub open spec fn print_of(
    page: PageSetupView,
    object: ObjectSettingsView,
    outline: OutlineSettingsView,
) -> PrintView {
    PrintView {
        width: sides_of(page).0,
        height: sides_of(page).1,
        top: edge_of(object.header, page.named.top, page.margins.top),
        bottom: edge_of(object.footer, page.named.bottom, page.margins.bottom),
        left: Some(page.margins.left),
        right: Some(page.margins.right),
        background: object.web.background,
        scale: object.web.zoom,
        outline: wants_outline(outline, object),
    }
}

/// The print call of an object.
pub fn print(page: &PageSetup, object: &ObjectSettings, outline: &OutlineSettings) -> (print: Print)
    ensures
        print@ == print_of(page@, object@, outline@),
{
    let (width, height) = sides(page);
    Print {
        width,
        height,
        top: edge(&object.header, page.named.top, &page.margins.top),
        bottom: edge(&object.footer, page.named.bottom, &page.margins.bottom),
        left: Some(page.margins.left.clone()),
        right: Some(page.margins.right.clone()),
        background: object.web.background,
        scale: object.web.zoom.clone(),
        outline: outline_wanted(outline, object),
    }
}

/// A print call with more room at the top and at the bottom, in inches.
pub open spec fn reserved(print: PrintView, header: Seq<char>, footer: Seq<char>) -> PrintView {
    PrintView {
        top: EdgeSumView { reserved: print.top.reserved.push(header), ..print.top },
        bottom: EdgeSumView { reserved: print.bottom.reserved.push(footer), ..print.bottom },
        ..print
    }
}

/// Keep more room at the top and at the bottom, in inches.
pub fn reserve(print: Print, header: Real, footer: Real) -> (roomier: Print)
    ensures
        roomier@ == reserved(print@, header@, footer@),
{
    let mut print = print;
    let ghost (above, below) = (print.top.reserved@, print.bottom.reserved@);
    let ghost (more_above, more_below) = (header, footer);
    print.top.reserved.push(header);
    print.bottom.reserved.push(footer);
    assert(reals(above.push(more_above)) =~= reals(above).push(more_above@));
    assert(reals(below.push(more_below)) =~= reals(below).push(more_below@));
    print
}

/// The commands that a page is prepared with to measure a band document, in a
/// window of so many pixels.
pub open spec fn measure_of(web: WebSettingsView, width: int, height: int) -> Seq<CommandView> {
    seq![
        bare("Page.enable"@),
        bare("Network.enable"@),
        media_command(web.media_type),
        viewport_command(width, height),
    ]
}

/// The commands that a page is prepared with to measure a band document.
pub fn measure_prepare(web: &WebSettings, width: u64, height: u64) -> (list: Vec<Command>)
    ensures
        commands_of(list@) == measure_of(web@, width as int, height as int),
{
    let mut list: Vec<Command> = Vec::new();
    push_command(&mut list, Command::new("Page.enable", "null".to_owned()));
    push_command(&mut list, Command::new("Network.enable", "null".to_owned()));
    push_command(&mut list, emulate_media(web));
    push_command(&mut list, metrics(width, height));
    assert(commands_of(list@) =~= measure_of(web@, width as int, height as int));
    list
}

/// The commands that a page is prepared with to print bands.
pub open spec fn band_prepare_of(web: Option<WebSettingsView>) -> Seq<CommandView> {
    seq![bare("Page.enable"@), bare("Network.enable"@)] + match web {
        Some(web) => seq![media_command(web.media_type)],
        None => Seq::empty(),
    }
}

/// The commands that a page is prepared with to print bands. The stylesheets
/// are picked only where a document of a band has a say.
pub fn band_prepare(web: Option<&WebSettings>) -> (list: Vec<Command>)
    ensures
        commands_of(list@) == band_prepare_of(
            match web {
                Some(web) => Some(web@),
                None => None,
            },
        ),
{
    let mut list: Vec<Command> = Vec::new();
    push_command(&mut list, Command::new("Page.enable", "null".to_owned()));
    push_command(&mut list, Command::new("Network.enable", "null".to_owned()));
    let ghost so_far = commands_of(list@);
    assert(so_far =~= seq![bare("Page.enable"@), bare("Network.enable"@)]);
    if let Some(web) = web {
        push_command(&mut list, emulate_media(web));
        assert(commands_of(list@) =~= so_far + seq![media_command(web@.media_type)]);
    } else {
        assert(commands_of(list@) =~= so_far + Seq::<CommandView>::empty());
    }
    list
}

/// How bands are loaded: as any document, after a delay of their own.
pub fn band_load(delay: u64) -> (load: LoadSettings)
    ensures
        load@ == (LoadSettingsView { javascript_delay: delay, ..default_load_settings() }),
{
    let mut load = LoadSettings::default();
    load.javascript_delay = delay;
    load
}

/// Whether any object is open to local files.
pub open spec fn any_enabled(objects: Seq<ObjectSettingsView>) -> bool
    decreases objects.len(),
{
    objects.len() > 0 && (any_enabled(objects.drop_last())
        || objects.last().web.local_file_access)
}

/// The directories that are open to any object, in order.
pub open spec fn all_allowed(objects: Seq<ObjectSettingsView>) -> Seq<Seq<char>>
    decreases objects.len(),
{
    if objects.len() == 0 {
        Seq::empty()
    } else {
        all_allowed(objects.drop_last()) + objects.last().web.allowed_paths
    }
}

/// What bands may read: what any object may.
pub fn band_policy(objects: &Vec<ObjectSettings>) -> (policy: Policy)
    ensures
        policy.enabled == any_enabled(settings_of(objects@)),
        texts(policy.allowed@) == all_allowed(settings_of(objects@)),
{
    let mut enabled = false;
    let mut allowed: Vec<String> = Vec::new();
    let ghost all = settings_of(objects@);
    let size: usize = objects.len();
    let mut at: usize = 0;
    assert(all.take(0) =~= Seq::empty());
    assert(texts(allowed@) =~= Seq::empty());
    while at < size
        invariant
            at <= size == objects@.len(),
            all == settings_of(objects@),
            enabled == any_enabled(all.take(at as int)),
            texts(allowed@) == all_allowed(all.take(at as int)),
        decreases size - at,
    {
        assert(all.take(at + 1).drop_last() =~= all.take(at as int));
        assert(all.take(at + 1).last() == objects@[at as int]@);
        let web = &objects[at].web;
        enabled = enabled || web.local_file_access;
        let ghost before = allowed@;
        let mut more = copy_texts(&web.allowed_paths);
        let ghost added = more@;
        allowed.append(&mut more);
        assert(texts(before + added) =~= texts(before) + texts(added));
        at = at + 1;
    }
    assert(all.take(at as int) =~= all);
    Policy { enabled, allowed }
}

/// The rules for the requests of a sheet of bands: those of the sheet's own
/// document, with the files of the bands beside it.
pub fn band_rules(files: FileAccess, document: &str, also: Vec<String>) -> (rules: Rules)
    ensures
        rules.files@ == (FileAccessView {
            documents: files@.documents + texts(also@),
            ..files@
        }),
        rules.document@ == document@,
        rules.serve_as is None,
        rules.document_headers@.len() == 0,
        rules.credentials is None,
{
    let ghost start = files@;
    let ghost all = texts(also@);
    let mut files = files;
    let size: usize = also.len();
    let mut at: usize = 0;
    assert(start.documents + all.take(0) =~= start.documents);
    while at < size
        invariant
            at <= size == also@.len(),
            all == texts(also@),
            files@ == (FileAccessView {
                documents: start.documents + all.take(at as int),
                ..start
            }),
        decreases size - at,
    {
        assert(all[at as int] == also@[at as int]@);
        assert((start.documents + all.take(at as int)).push(all[at as int]) =~= start.documents
            + all.take(at + 1));
        files = files.also(also[at].clone());
        at = at + 1;
    }
    assert(all.take(at as int) =~= all);
    let mut rules = Rules::default();
    rules.files = files;
    rules.document = document.to_owned();
    rules
}

/// The print call of a sheet of bands: the whole paper, and nothing but what is
/// drawn.
pub open spec fn band_print_of(page: PageSetupView) -> PrintView {
    let nothing = EdgeSumView { margin: None, gap: None, reserved: Seq::empty() };
    PrintView {
        width: sides_of(page).0,
        height: sides_of(page).1,
        top: nothing,
        bottom: nothing,
        left: None,
        right: None,
        background: true,
        scale: "1"@,
        outline: false,
    }
}

/// The print call of a sheet of bands.
pub fn band_print(page: &PageSetup) -> (print: Print)
    ensures
        print@ == band_print_of(page@),
{
    let (width, height) = sides(page);
    let print = Print {
        width,
        height,
        top: EdgeSum { margin: None, gap: None, reserved: Vec::new() },
        bottom: EdgeSum { margin: None, gap: None, reserved: Vec::new() },
        left: None,
        right: None,
        background: true,
        scale: Real { text: "1".to_owned() },
        outline: false,
    };
    assert(reals(print.top.reserved@) =~= Seq::empty());
    assert(reals(print.bottom.reserved@) =~= Seq::empty());
    print
}

/// The margins of a page as a stylesheet: each a length that CSS understands.
pub open spec fn page_rule(
    top: Seq<char>,
    right: Seq<char>,
    bottom: Seq<char>,
    left: Seq<char>,
) -> Seq<char> {
    "@page { margin: "@ + top + " "@ + right + " "@ + bottom + " "@ + left + "; }"@
}

/// The margins of a print call as a stylesheet, so that they hold against a
/// page rule of the document's own.
pub fn page_box(top: &str, right: &str, bottom: &str, left: &str) -> (css: String)
    ensures
        css@ == page_rule(top@, right@, bottom@, left@),
{
    let mut css = "@page { margin: ".to_owned();
    css.push_str(top);
    css.push_str(" ");
    css.push_str(right);
    css.push_str(" ");
    css.push_str(bottom);
    css.push_str(" ");
    css.push_str(left);
    css.push_str("; }");
    css
}

/// Everything that is decided about one object.
#[derive(Debug, PartialEq, Eq)]
pub struct Plan {
    pub launch: LaunchOptions,
    pub prepare: Vec<Command>,
    pub load: LoadPlan,
    pub print: Print,
    pub context: Context,
    /// How long the whole conversion may take, in seconds.
    pub deadline: Option<u64>,
    pub finish: Finishing,
    pub requests: Rules,
    pub toc: Option<TocSettings>,
}

impl Plan {
    /// Decide everything about one object. `allowed` are the directories that
    /// are open to it and `document` its own file, as the file system resolved
    /// them.
    pub fn new(
        global: &GlobalSettings,
        object: &ObjectSettings,
        clock: Clock,
        document_url: &str,
        allowed: Vec<String>,
        document: Option<String>,
    ) -> (plan: Plan)
        ensures
            plan.launch@ == launch_of(global@, object@),
            commands_of(plan.prepare@) == prepare_of(object@, document_url@),
            plan.load@ == load_plan_of(object@.load),
            plan.print@ == print_of(global@.page, object@, global@.outline),
            plan.context@ == context_of(global@, object@, clock),
            plan.deadline == global@.timeout,
            plan.finish@ == finishing_of(global@, object@, document_url@),
            are_rules_of(
                plan.requests,
                object@,
                document_url@,
                texts(allowed@),
                maybe(document),
            ),
            match plan.toc {
                Some(toc) => toc_of(object@) == Some(toc@),
                None => toc_of(object@) is None,
            },
    {
        Plan {
            launch: launch(global, object),
            prepare: prepare(object, document_url),
            load: LoadPlan::new(&object.load),
            print: print(&global.page, object, &global.outline),
            context: context(global, object, clock),
            deadline: global.timeout,
            finish: finish(global, object, document_url),
            requests: rules(object, document_url, allowed, document),
            toc: toc(object),
        }
    }
}

/// A header of the command line travels one way only: either every request
/// carries it, or only the one for the document.
pub proof fn law_a_header_travels_one_way(
    rules: Rules,
    object: ObjectSettingsView,
    document_url: Seq<char>,
    allowed: Seq<Seq<char>>,
    document: Option<Seq<char>>,
)
    requires
        are_rules_of(rules, object, document_url, allowed, document),
        object.web.custom_headers.len() > 0,
    ensures
        (rules.document_headers@.len() > 0) != prepare_of(object, document_url).contains(
            headers_command(object.web.custom_headers),
        ),
{
    let commands = prepare_of(object, document_url);
    let wanted = headers_command(object.web.custom_headers);
    assert(pairs_of(rules.document_headers@).len() == rules.document_headers@.len());
    let cookies = only_if(
        object.web.cookies.len() > 0 && cookies_apply(document_url),
        cookies_command(object.web.cookies, document_url),
    );
    if object.web.propagate_custom_headers {
        assert(commands[4 + cookies.len() as int] == wanted);
    } else {
        reveal_strlit("Network.setExtraHTTPHeaders");
        reveal_strlit("Page.enable");
        reveal_strlit("Network.enable");
        reveal_strlit("Emulation.setEmulatedMedia");
        reveal_strlit("Emulation.setDeviceMetricsOverride");
        reveal_strlit("Network.setCookies");
        reveal_strlit("Emulation.setScriptExecutionDisabled");
        assert forall|i: int| 0 <= i < commands.len() implies commands[i] != wanted by {
            let method = commands[i].method;
            if i < 4 {
                assert(method == "Page.enable"@ || method == "Network.enable"@ || method
                    == "Emulation.setEmulatedMedia"@ || method
                    == "Emulation.setDeviceMetricsOverride"@);
            } else {
                assert(method == "Network.setCookies"@ || method
                    == "Emulation.setScriptExecutionDisabled"@);
            }
            assert(method.len() != wanted.method.len() || method[0] != wanted.method[0]);
        }
    }
}

proof fn lemma_lasting(headers: Seq<PairView>, count: int, name: Seq<char>)
    requires
        0 <= count <= headers.len(),
    ensures
        lasting(headers, count).len() <= count,
        is_named(lasting(headers, count), name) ==> !is_named(headers.skip(count), name)
            && is_named(headers, name),
        forall|i: int, j: int|
            0 <= i < j < lasting(headers, count).len() ==> (#[trigger] lasting(
                headers,
                count,
            )[i]).name != (#[trigger] lasting(headers, count)[j]).name,
    decreases count,
{
    if count > 0 {
        let earlier = lasting(headers, count - 1);
        let own = headers[count - 1];
        lemma_lasting(headers, count - 1, name);
        lemma_lasting(headers, count - 1, own.name);
        let rest = headers.skip(count - 1);
        assert(rest[0] == own);
        assert(is_named(rest, own.name));
        assert(headers.skip(count) =~= rest.skip(1));
        if is_named(headers.skip(count), name) {
            let i = choose|i: int|
                0 <= i < headers.skip(count).len() && (#[trigger] headers.skip(count)[i]).name
                    == name;
            assert(rest[i + 1].name == name);
            assert(is_named(rest, name));
        }
        let now = lasting(headers, count);
        if is_named(now, name) {
            let i = choose|i: int| 0 <= i < now.len() && (#[trigger] now[i]).name == name;
            if i < earlier.len() {
                assert(earlier[i].name == name);
                assert(is_named(earlier, name));
            }
        }
        assert forall|i: int, j: int| 0 <= i < j < now.len() implies (#[trigger] now[i]).name
            != (#[trigger] now[j]).name by {
            assert(earlier[i] == now[i]);
            if j < earlier.len() {
                assert(earlier[j] == now[j]);
            } else {
                assert(is_named(earlier, earlier[i].name));
            }
        }
    }
}

proof fn lemma_lasting_value(headers: Seq<PairView>, count: int, at: int)
    requires
        0 <= at < count <= headers.len(),
        !is_named(headers.skip(at + 1), headers[at].name),
    ensures
        lasting(headers, count).contains(headers[at]),
    decreases count,
{
    let now = lasting(headers, count);
    if at == count - 1 {
        assert(now.last() == headers[at]);
        assert(now[now.len() - 1] == headers[at]);
    } else {
        lemma_lasting_value(headers, count - 1, at);
        let earlier = lasting(headers, count - 1);
        let i = choose|i: int| 0 <= i < earlier.len() && earlier[i] == headers[at];
        assert(now[i] == headers[at]);
    }
}

/// Headers that go on every request carry each name once. The last value that is
/// written for a name is the one that it has.
pub proof fn law_the_last_value_of_a_header_counts(headers: Seq<PairView>, at: int)
    requires
        0 <= at < headers.len(),
        !is_named(headers.skip(at + 1), headers[at].name),
    ensures
        lasting(headers, headers.len() as int).contains(headers[at]),
        forall|i: int, j: int|
            0 <= i < j < lasting(headers, headers.len() as int).len() ==> (#[trigger] lasting(
                headers,
                headers.len() as int,
            )[i]).name != (#[trigger] lasting(headers, headers.len() as int)[j]).name,
{
    lemma_lasting(headers, headers.len() as int, headers[at].name);
    lemma_lasting_value(headers, headers.len() as int, at);
}

/// A document that did not come over HTTP is never given cookies.
pub proof fn law_only_http_takes_cookies(object: ObjectSettingsView, document_url: Seq<char>)
    requires
        !cookies_apply(document_url),
    ensures
        prepare_of(object, document_url) == prepare_of(
            ObjectSettingsView {
                web: WebSettingsView { cookies: Seq::empty(), ..object.web },
                ..object
            },
            document_url,
        ),
{
}

/// A stylesheet with a scheme is linked to and every other is read as a file; a status to
/// wait for takes the place of the delay; and all scripts are run in their order.
pub proof fn law_how_a_document_is_loaded(load: LoadSettingsView)
    ensures
        load.user_style_sheet is None ==> load_plan_of(load).inject is None,
        load.user_style_sheet matches Some(written) ==> (names_url(written) ==> load_plan_of(
            load,
        ).inject == Some(InjectionView::Link(written))) && (!names_url(written) ==> load_plan_of(
            load,
        ).inject == Some(InjectionView::File(written))),
        load.window_status matches Some(wanted) ==> load_plan_of(load).settle
            == SettleView::WindowStatus(wanted),
        load.window_status is None ==> load_plan_of(load).settle == SettleView::Delay(
            load.javascript_delay,
        ),
        load_plan_of(load).scripts == load.run_scripts,
{
}

/// A page is opened to the network, shown as on the screen or as on paper, in the window
/// that was asked for; then come its cookies, its headers and whether it runs scripts, each
/// where it was asked for.
pub proof fn law_how_a_page_is_prepared(object: ObjectSettingsView, document_url: Seq<char>)
    ensures
        ({
            let web = object.web;
            let over_http = "http://"@.is_prefix_of(document_url) || "https://"@.is_prefix_of(
                document_url,
            );
            let commands = prepare_of(object, document_url);
            &&& commands.len() >= 4
            &&& commands[0] == (CommandView { method: "Page.enable"@, params: "null"@ })
            &&& commands[1] == (CommandView { method: "Network.enable"@, params: "null"@ })
            &&& web.media_type == MediaType::Print ==> commands[2] == (CommandView {
                method: "Emulation.setEmulatedMedia"@,
                params: "{\"media\":\"print\"}"@,
            })
            &&& web.media_type == MediaType::Screen ==> commands[2] == (CommandView {
                method: "Emulation.setEmulatedMedia"@,
                params: "{\"media\":\"screen\"}"@,
            })
            &&& commands[3] == (CommandView {
                method: "Emulation.setDeviceMetricsOverride"@,
                params: "{\"width\":"@ + decimal(web.viewport.0 as int) + ",\"height\":"@ + decimal(
                    web.viewport.1 as int,
                ) + ",\"deviceScaleFactor\":1,\"mobile\":false}"@,
            })
            &&& commands.len() == 4 + (if web.cookies.len() > 0 && over_http {
                1int
            } else {
                0int
            }) + (if web.propagate_custom_headers && web.custom_headers.len() > 0 {
                1int
            } else {
                0int
            }) + (if web.javascript {
                0int
            } else {
                1int
            })
            &&& web.cookies.len() > 0 && over_http ==> commands[4] == (CommandView {
                method: "Network.setCookies"@,
                params: "{\"cookies\":["@ + cookie_list(web.cookies, document_url) + "]}"@,
            })
            &&& !web.javascript ==> commands.last() == (CommandView {
                method: "Emulation.setScriptExecutionDisabled"@,
                params: "{\"value\":true}"@,
            })
            &&& web.propagate_custom_headers && web.custom_headers.len() > 0
                ==> commands[commands.len() - (if web.javascript {
                1int
            } else {
                2int
            })] == (CommandView {
                method: "Network.setExtraHTTPHeaders"@,
                params: "{\"headers\":{"@ + header_list(
                    lasting(web.custom_headers, web.custom_headers.len() as int),
                ) + "}}"@,
            })
        }),
{
}

/// Cookies and headers are written one after the other, with commas between them, each
/// with its name and its value.
pub proof fn law_cookies_and_headers_in_turn(
    pairs: Seq<PairView>,
    pair: PairView,
    document_url: Seq<char>,
)
    ensures
        cookie_list(seq![pair], document_url) == "{\"name\":"@ + script_string(pair.name)
            + ",\"value\":"@ + script_string(text_from(percent_decoded(encode_utf8(pair.value))))
            + ",\"url\":"@ + script_string(document_url) + "}"@,
        pairs.len() > 0 ==> cookie_list(pairs.push(pair), document_url) == cookie_list(
            pairs,
            document_url,
        ) + ","@ + cookie_list(seq![pair], document_url),
        header_list(seq![pair]) == script_string(pair.name) + ":"@ + script_string(pair.value),
        pairs.len() > 0 ==> header_list(pairs.push(pair)) == header_list(pairs) + ","@
            + header_list(seq![pair]),
{
    reveal_with_fuel(cookie_list, 2);
    reveal_with_fuel(header_list, 2);
    assert(seq![pair].drop_last() =~= Seq::empty());
    let own = cookie_text(pair, document_url);
    assert(cookie_list(seq![pair], document_url) =~= own);
    let header = script_string(pair.name) + ":"@ + script_string(pair.value);
    assert(header_list(seq![pair]) =~= header);
    assert(pairs.push(pair).drop_last() =~= pairs);
    assert(pairs.push(pair).last() == pair);
    if pairs.len() > 0 {
        assert(cookie_list(pairs.push(pair), document_url) =~= cookie_list(pairs, document_url)
            + ","@ + own);
        assert(header_list(pairs.push(pair)) =~= header_list(pairs) + ","@ + header);
    }
}

/// A sheet that lies on its side has its sides changed; the margins stay where they are.
/// A band document that sizes itself takes the place of a margin that was not written, and
/// the gap is kept only beside a band.
pub proof fn law_how_an_object_is_printed(
    page: PageSetupView,
    object: ObjectSettingsView,
    outline: OutlineSettingsView,
)
    ensures
        ({
            let print = print_of(page, object, outline);
            let header = object.header;
            let footer = object.footer;
            &&& page.orientation == Orientation::Portrait ==> print.width == page.size.width
                && print.height == page.size.height
            &&& page.orientation == Orientation::Landscape ==> print.width == page.size.height
                && print.height == page.size.width
            &&& print.left == Some(page.margins.left)
            &&& print.right == Some(page.margins.right)
            &&& header.html is Some && !page.named.top ==> print.top.margin is None
            &&& header.html is None || page.named.top ==> print.top.margin == Some(
                page.margins.top,
            )
            &&& footer.html is Some && !page.named.bottom ==> print.bottom.margin is None
            &&& footer.html is None || page.named.bottom ==> print.bottom.margin == Some(
                page.margins.bottom,
            )
            &&& header.left is Some || header.center is Some || header.right is Some
                || header.html is Some || header.line ==> print.top.gap == header.spacing
            &&& footer.left is Some || footer.center is Some || footer.right is Some
                || footer.html is Some || footer.line ==> print.bottom.gap == footer.spacing
            &&& header.left is None && header.center is None && header.right is None
                && header.html is None && !header.line ==> print.top.gap is None
            &&& footer.left is None && footer.center is None && footer.right is None
                && footer.html is None && !footer.line ==> print.bottom.gap is None
            &&& print.top.reserved.len() == 0 && print.bottom.reserved.len() == 0
            &&& print.background == object.web.background
            &&& print.scale == object.web.zoom
        }),
{
}

/// The outline of a document is asked for where anything is done with it, or where a band
/// names a heading or may do so, and never for an object that is kept out.
pub proof fn law_when_the_outline_is_asked_for(
    outline: OutlineSettingsView,
    object: ObjectSettingsView,
)
    ensures
        !object.in_outline ==> !wants_outline(outline, object),
        object.in_outline && (outline.enabled || outline.dump is Some) ==> wants_outline(
            outline,
            object,
        ),
        object.in_outline && (object.header.html is Some || object.footer.html is Some)
            ==> wants_outline(outline, object),
        object.in_outline && (cell_asks(object.header.left) || cell_asks(object.header.center)
            || cell_asks(object.header.right) || cell_asks(object.footer.left) || cell_asks(
            object.footer.center,
        ) || cell_asks(object.footer.right)) ==> wants_outline(outline, object),
        !outline.enabled && outline.dump is None && object.header.html is None
            && object.footer.html is None && !cell_asks(object.header.left) && !cell_asks(
            object.header.center,
        ) && !cell_asks(object.header.right) && !cell_asks(object.footer.left) && !cell_asks(
            object.footer.center,
        ) && !cell_asks(object.footer.right) ==> !wants_outline(outline, object),
{
}

/// More room is added to both ends of a page, and nothing else changes.
pub proof fn law_room_is_added_at_both_ends(print: PrintView, header: Seq<char>, footer: Seq<char>)
    ensures
        reserved(print, header, footer).top.reserved == print.top.reserved.push(header),
        reserved(print, header, footer).bottom.reserved == print.bottom.reserved.push(footer),
        reserved(print, header, footer).top.margin == print.top.margin,
        reserved(print, header, footer).bottom.margin == print.bottom.margin,
        reserved(print, header, footer).top.gap == print.top.gap,
        reserved(print, header, footer).bottom.gap == print.bottom.gap,
        reserved(print, header, footer) == (PrintView {
            top: reserved(print, header, footer).top,
            bottom: reserved(print, header, footer).bottom,
            ..print
        }),
{
}

/// A sheet of bands is the whole paper, without margins and at its own size.
pub proof fn law_how_a_sheet_of_bands_is_printed(page: PageSetupView)
    ensures
        page.orientation == Orientation::Portrait ==> band_print_of(page).width == page.size.width
            && band_print_of(page).height == page.size.height,
        page.orientation == Orientation::Landscape ==> band_print_of(page).width
            == page.size.height && band_print_of(page).height == page.size.width,
        band_print_of(page).top.margin is None && band_print_of(page).bottom.margin is None,
        band_print_of(page).left is None && band_print_of(page).right is None,
        band_print_of(page).background,
        band_print_of(page).scale == "1"@,
        !band_print_of(page).outline,
{
}

/// What a browser is started with comes from the settings of the run and of the object.
pub proof fn law_what_a_browser_is_started_with(
    global: GlobalSettingsView,
    object: ObjectSettingsView,
)
    ensures
        launch_of(global, object) == (LaunchOptionsView {
            no_sandbox: global.browser.no_sandbox,
            extra_args: global.browser.extra_args,
            user_data_dir: None,
            handshake_timeout: None,
            allow_slow_scripts: !object.load.stop_slow_scripts,
            proxy: object.web.proxy,
            bypass_proxy_for: object.web.bypass_proxy_for,
            cache_dir: object.web.cache_dir,
            minimum_font_size: object.web.minimum_font_size,
            no_images: !object.web.images,
        }),
{
}

/// What is done to a document once it is printed, and what its placeholders stand for,
/// comes from its own settings and from those of the run; the pages of a cover are not
/// counted.
pub proof fn law_how_a_document_is_finished(
    global: GlobalSettingsView,
    object: ObjectSettingsView,
    document_url: Seq<char>,
    clock: Clock,
)
    ensures
        ({
            let finishing = finishing_of(global, object, document_url);
            let context = context_of(global, object, clock);
            &&& finishing.outline == global.outline
            &&& finishing.bands.header == object.header
            &&& finishing.bands.footer == object.footer
            &&& finishing.numbering.counted <==> object.kind != ObjectKind::Cover
            &&& finishing.numbering.page_offset == global.page_offset
            &&& finishing.links == object.links
            &&& finishing.back_links == object.toc.back_links
            &&& finishing.document_url == document_url
            &&& context.replacements == object.replacements
            &&& context.clock == clock
            &&& global.title is Some ==> context.title == global.title->0
            &&& global.title is None ==> context.title.len() == 0
            &&& object.input matches Some(input) ==> context.webpage == written_as(input)
            &&& object.input is None ==> context.webpage.len() == 0
            &&& object.kind == ObjectKind::Toc ==> toc_of(object) == Some(object.toc)
            &&& object.kind != ObjectKind::Toc ==> toc_of(object) is None
        }),
{
}

/// What is open to any of the objects is open to their bands: the directories of all of
/// them in their order, and all files where any object may read them.
pub proof fn law_bands_may_read_what_objects_may(
    first: Seq<ObjectSettingsView>,
    second: Seq<ObjectSettingsView>,
    object: ObjectSettingsView,
)
    ensures
        any_enabled(first + second) == (any_enabled(first) || any_enabled(second)),
        any_enabled(seq![object]) == object.web.local_file_access,
        !any_enabled(Seq::empty()),
        all_allowed(first + second) == all_allowed(first) + all_allowed(second),
        all_allowed(seq![object]) == object.web.allowed_paths,
    decreases second.len(),
{
    reveal_with_fuel(any_enabled, 2);
    reveal_with_fuel(all_allowed, 2);
    assert(seq![object].drop_last() =~= Seq::empty());
    assert(Seq::empty() + object.web.allowed_paths =~= object.web.allowed_paths);
    if second.len() == 0 {
        assert(first + second =~= first);
        assert(all_allowed(first) + all_allowed(second) =~= all_allowed(first));
    } else {
        assert((first + second).drop_last() =~= first + second.drop_last());
        assert((first + second).last() == second.last());
        law_bands_may_read_what_objects_may(first, second.drop_last(), object);
        assert(all_allowed(first + second) =~= all_allowed(first) + all_allowed(second));
    }
}

/// The margins of a page are written in the order of a stylesheet: top, right, bottom and
/// left. To measure a band the window is as large as it is told to be.
pub proof fn law_margins_and_windows(
    top: Seq<char>,
    right: Seq<char>,
    bottom: Seq<char>,
    left: Seq<char>,
    web: WebSettingsView,
    width: int,
    height: int,
)
    ensures
        page_rule(top, right, bottom, left) == "@page { margin: "@ + top + " "@ + right + " "@
            + bottom + " "@ + left + "; }"@,
        measure_of(web, width, height).len() == 4,
        measure_of(web, width, height)[3] == (CommandView {
            method: "Emulation.setDeviceMetricsOverride"@,
            params: "{\"width\":"@ + decimal(width) + ",\"height\":"@ + decimal(height)
                + ",\"deviceScaleFactor\":1,\"mobile\":false}"@,
        }),
        measure_of(web, width, height)[2] == band_prepare_of(Some(web))[2],
        band_prepare_of(None).len() == 2,
        band_prepare_of(Some(web)).len() == 3,
        measure_of(web, width, height)[0] == (CommandView {
            method: "Page.enable"@,
            params: "null"@,
        }),
        measure_of(web, width, height)[1] == (CommandView {
            method: "Network.enable"@,
            params: "null"@,
        }),
        web.media_type == MediaType::Print ==> band_prepare_of(Some(web))[2].params
            == "{\"media\":\"print\"}"@,
        web.media_type == MediaType::Screen ==> band_prepare_of(Some(web))[2].params
            == "{\"media\":\"screen\"}"@,
{
}

/// The rules of an object say who reads files, what is served, which headers only its
/// document carries, and what is offered to a challenge.
pub proof fn law_what_the_rules_of_an_object_say(
    rules: Rules,
    object: ObjectSettingsView,
    document_url: Seq<char>,
    allowed: Seq<Seq<char>>,
    document: Option<Seq<char>>,
)
    requires
        are_rules_of(rules, object, document_url, allowed, document),
    ensures
        rules.files@.enabled == object.web.local_file_access,
        rules.files@.allowed == allowed,
        rules.files@.document_is_local == (path_of(document_url) is Some),
        path_of(document_url) is Some && document is Some ==> rules.files@.documents == seq![
            document->0,
        ],
        path_of(document_url) is None || document is None ==> rules.files@.documents.len() == 0,
        rules.document@ == document_url,
        object.web.encoding is None || path_of(document_url) is None ==> rules.serve_as is None,
        object.web.encoding is Some && path_of(document_url) is Some ==> (rules.serve_as matches Some(
            charset,
        ) && charset.name@ == object.web.encoding->0 && charset.path@ == path_of(document_url)->0),
        object.web.propagate_custom_headers ==> rules.document_headers@.len() == 0,
        !object.web.propagate_custom_headers ==> pairs_of(rules.document_headers@)
            == object.web.custom_headers,
        object.web.username is None && object.web.password is None ==> rules.credentials is None,
        object.web.username is Some ==> (rules.credentials matches Some(credentials)
            && credentials.username@ == object.web.username->0),
        object.web.password is Some ==> (rules.credentials matches Some(credentials)
            && credentials.password@ == object.web.password->0),
{
    assert(pairs_of(rules.document_headers@).len() == rules.document_headers@.len());
}

} // verus!
