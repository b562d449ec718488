//! What a command line asks for, once it has been understood.

use crate::document::{is_digit, maybe_input, Input, InputView, Output, OutputView};
use crate::numbers::{
    is_finite_real, is_real, is_space, law_nothing_else_spells_a_real_number,
    law_white_space_is_dropped, lemma_a_number_ends, lower, lowered, small, spells_finite,
    spells_real, trim, trimmed, trimmed_end,
};
use crate::text::{chars_of, maybe, same, text_of, texts};
use crate::tokenizer::copy_texts;
use vstd::prelude::*;

verus! {

/// A real number, kept as the text that spells it.
#[derive(Debug, PartialEq, Eq)]
pub struct Real {
    pub text: String,
}

impl View for Real {
    type V = Seq<char>;

    open spec fn view(&self) -> Seq<char> {
        self.text@
    }
}

/// The text of a number that may be absent.
pub open spec fn maybe_real(number: Option<Real>) -> Option<Seq<char>> {
    match number {
        Some(number) => Some(number@),
        None => None,
    }
}

/// The number that a text spells, without the white space round it.
pub open spec fn real_of(text: Seq<char>) -> Option<Seq<char>> {
    if is_real(trimmed(text)) {
        Some(trimmed(text))
    } else {
        None
    }
}

impl Real {
    /// Read a number, which may have white space round it.
    pub fn parse(text: &str) -> (number: Option<Real>)
        ensures
            maybe_real(number) == real_of(text@),
    {
        let chars = trim(text);
        if spells_real(&chars) {
            let size: usize = chars.len();
            let text = text_of(&chars, 0, size);
            assert(text@ =~= chars@);
            Some(Real { text })
        } else {
            None
        }
    }

    /// The number as it was spelled.
    pub fn as_str(&self) -> (text: &str)
        ensures
            text@ == self@,
    {
        self.text.as_str()
    }
}

impl Clone for Real {
    fn clone(&self) -> (copy: Real)
        ensures
            copy@ == self@,
    {
        Real { text: self.text.clone() }
    }
}

fn written(text: &str) -> (number: Real)
    ensures
        number@ == text@,
{
    Real { text: text.to_owned() }
}

/// The unit of a length.
#[derive(Clone, Copy, Debug, PartialEq, Eq)]
pub enum Unit {
    Mm,
    Cm,
    In,
    Pt,
    Px,
}

/// Which way round the sheet is.
#[derive(Clone, Copy, Debug, PartialEq, Eq)]
pub enum Orientation {
    Portrait,
    Landscape,
}

/// The margins that were written on the command line rather than defaulted.
#[derive(Clone, Copy, Debug, PartialEq, Eq)]
pub struct NamedMargins {
    pub top: bool,
    pub bottom: bool,
}

/// How much is said while converting.
#[derive(Clone, Copy, Debug, PartialEq, Eq)]
pub enum LogLevel {
    /// Nothing at all.
    Quiet,
    Error,
    Warn,
    Info,
}

/// Which stylesheets apply.
#[derive(Clone, Copy, Debug, PartialEq, Eq)]
pub enum MediaType {
    Screen,
    Print,
}

/// What to do about a document or a media file that does not load.
#[derive(Clone, Copy, Debug, PartialEq, Eq)]
pub enum LoadErrorHandling {
    Abort,
    Skip,
    Ignore,
}

/// What an object is.
#[derive(Clone, Copy, Debug, PartialEq, Eq)]
pub enum ObjectKind {
    Page,
    Cover,
    Toc,
}

/// Which links are kept.
#[derive(Clone, Copy, Debug, PartialEq, Eq)]
pub struct LinkSettings {
    /// Links that leave the document.
    pub external: bool,
    /// Links within the document.
    pub internal: bool,
    /// Whether relative links are made absolute.
    pub resolve_relative: bool,
}

/// A length: how much of which unit.
#[derive(Debug, PartialEq, Eq)]
pub struct Length {
    /// How much, as a text that spells a finite number.
    pub amount: Real,
    pub unit: Unit,
}

/// A [`Length`] by the characters it holds.
pub struct LengthView {
    pub amount: Seq<char>,
    pub unit: Unit,
}

impl View for Length {
    type V = LengthView;

    open spec fn view(&self) -> LengthView {
        LengthView {
            amount: self.amount@,
            unit: self.unit,
        }
    }
}

impl Clone for Length {
    fn clone(&self) -> (copy: Length)
        ensures
            copy@ == self@,
    {
        Length {
            amount: self.amount.clone(),
            unit: self.unit,
        }
    }
}

/// The two sides of a sheet, before it is turned.
#[derive(Debug, PartialEq, Eq)]
pub struct PageDimensions {
    pub width: Length,
    pub height: Length,
}

/// A [`PageDimensions`] by the characters it holds.
pub struct PageDimensionsView {
    pub width: LengthView,
    pub height: LengthView,
}

impl View for PageDimensions {
    type V = PageDimensionsView;

    open spec fn view(&self) -> PageDimensionsView {
        PageDimensionsView {
            width: self.width@,
            height: self.height@,
        }
    }
}

impl Clone for PageDimensions {
    fn clone(&self) -> (copy: PageDimensions)
        ensures
            copy@ == self@,
    {
        PageDimensions {
            width: self.width.clone(),
            height: self.height.clone(),
        }
    }
}

/// The white space round the content.
#[derive(Debug, PartialEq, Eq)]
pub struct Margins {
    pub top: Length,
    pub right: Length,
    pub bottom: Length,
    pub left: Length,
}

/// A [`Margins`] by the characters it holds.
pub struct MarginsView {
    pub top: LengthView,
    pub right: LengthView,
    pub bottom: LengthView,
    pub left: LengthView,
}

impl View for Margins {
    type V = MarginsView;

    open spec fn view(&self) -> MarginsView {
        MarginsView {
            top: self.top@,
            right: self.right@,
            bottom: self.bottom@,
            left: self.left@,
        }
    }
}

impl Clone for Margins {
    fn clone(&self) -> (copy: Margins)
        ensures
            copy@ == self@,
    {
        Margins {
            top: self.top.clone(),
            right: self.right.clone(),
            bottom: self.bottom.clone(),
            left: self.left.clone(),
        }
    }
}

/// The paper and how the content sits on it.
#[derive(Debug, PartialEq, Eq)]
pub struct PageSetup {
    pub size: PageDimensions,
    pub orientation: Orientation,
    pub margins: Margins,
    /// The margins that were written on the command line.
    pub named: NamedMargins,
}

/// A [`PageSetup`] by the characters it holds.
pub struct PageSetupView {
    pub size: PageDimensionsView,
    pub orientation: Orientation,
    pub margins: MarginsView,
    pub named: NamedMargins,
}

impl View for PageSetup {
    type V = PageSetupView;

    open spec fn view(&self) -> PageSetupView {
        PageSetupView {
            size: self.size@,
            orientation: self.orientation,
            margins: self.margins@,
            named: self.named,
        }
    }
}

impl Clone for PageSetup {
    fn clone(&self) -> (copy: PageSetup)
        ensures
            copy@ == self@,
    {
        PageSetup {
            size: self.size.clone(),
            orientation: self.orientation,
            margins: self.margins.clone(),
            named: self.named,
        }
    }
}

/// A name and its value.
#[derive(Debug, PartialEq, Eq)]
pub struct Pair {
    pub name: String,
    pub value: String,
}

/// A [`Pair`] by the characters it holds.
pub struct PairView {
    pub name: Seq<char>,
    pub value: Seq<char>,
}

impl View for Pair {
    type V = PairView;

    open spec fn view(&self) -> PairView {
        PairView {
            name: self.name@,
            value: self.value@,
        }
    }
}

impl Clone for Pair {
    fn clone(&self) -> (copy: Pair)
        ensures
            copy@ == self@,
    {
        Pair {
            name: self.name.clone(),
            value: self.value.clone(),
        }
    }
}

/// A header or a footer.
#[derive(Debug, PartialEq, Eq)]
pub struct Band {
    pub left: Option<String>,
    pub center: Option<String>,
    pub right: Option<String>,
    pub font_name: Option<String>,
    /// In points.
    pub font_size: Option<Real>,
    /// Between the band and the content, in millimetres.
    pub spacing: Option<Real>,
    /// Whether a line parts the band from the content.
    pub line: bool,
    /// A document to draw in place of the three texts.
    pub html: Option<String>,
}

/// A [`Band`] by the characters it holds.
pub struct BandView {
    pub left: Option<Seq<char>>,
    pub center: Option<Seq<char>>,
    pub right: Option<Seq<char>>,
    pub font_name: Option<Seq<char>>,
    pub font_size: Option<Seq<char>>,
    pub spacing: Option<Seq<char>>,
    pub line: bool,
    pub html: Option<Seq<char>>,
}

impl View for Band {
    type V = BandView;

    open spec fn view(&self) -> BandView {
        BandView {
            left: maybe(self.left),
            center: maybe(self.center),
            right: maybe(self.right),
            font_name: maybe(self.font_name),
            font_size: maybe_real(self.font_size),
            spacing: maybe_real(self.spacing),
            line: self.line,
            html: maybe(self.html),
        }
    }
}

impl Clone for Band {
    fn clone(&self) -> (copy: Band)
        ensures
            copy@ == self@,
    {
        Band {
            left: copy_maybe(&self.left),
            center: copy_maybe(&self.center),
            right: copy_maybe(&self.right),
            font_name: copy_maybe(&self.font_name),
            font_size: copy_real(&self.font_size),
            spacing: copy_real(&self.spacing),
            line: self.line,
            html: copy_maybe(&self.html),
        }
    }
}

/// How a document is loaded.
#[derive(Debug, PartialEq, Eq)]
pub struct LoadSettings {
    /// In milliseconds.
    pub javascript_delay: u64,
    pub window_status: Option<String>,
    pub run_scripts: Vec<String>,
    pub user_style_sheet: Option<String>,
    pub stop_slow_scripts: bool,
    pub on_document_error: LoadErrorHandling,
    pub on_media_error: LoadErrorHandling,
}

/// A [`LoadSettings`] by the characters it holds.
pub struct LoadSettingsView {
    pub javascript_delay: u64,
    pub window_status: Option<Seq<char>>,
    pub run_scripts: Seq<Seq<char>>,
    pub user_style_sheet: Option<Seq<char>>,
    pub stop_slow_scripts: bool,
    pub on_document_error: LoadErrorHandling,
    pub on_media_error: LoadErrorHandling,
}

impl View for LoadSettings {
    type V = LoadSettingsView;

    open spec fn view(&self) -> LoadSettingsView {
        LoadSettingsView {
            javascript_delay: self.javascript_delay,
            window_status: maybe(self.window_status),
            run_scripts: texts(self.run_scripts@),
            user_style_sheet: maybe(self.user_style_sheet),
            stop_slow_scripts: self.stop_slow_scripts,
            on_document_error: self.on_document_error,
            on_media_error: self.on_media_error,
        }
    }
}

impl Clone for LoadSettings {
    fn clone(&self) -> (copy: LoadSettings)
        ensures
            copy@ == self@,
    {
        LoadSettings {
            javascript_delay: self.javascript_delay,
            window_status: copy_maybe(&self.window_status),
            run_scripts: copy_texts(&self.run_scripts),
            user_style_sheet: copy_maybe(&self.user_style_sheet),
            stop_slow_scripts: self.stop_slow_scripts,
            on_document_error: self.on_document_error,
            on_media_error: self.on_media_error,
        }
    }
}

/// What a document may do and what it is given.
#[derive(Debug, PartialEq, Eq)]
pub struct WebSettings {
    pub javascript: bool,
    pub images: bool,
    pub background: bool,
    pub media_type: MediaType,
    pub zoom: Real,
    pub encoding: Option<String>,
    pub minimum_font_size: Option<u32>,
    /// Width and height, in CSS pixels.
    pub viewport: (u32, u32),
    pub username: Option<String>,
    pub password: Option<String>,
    pub proxy: Option<String>,
    pub bypass_proxy_for: Vec<String>,
    pub cache_dir: Option<String>,
    pub cookies: Vec<Pair>,
    pub custom_headers: Vec<Pair>,
    pub propagate_custom_headers: bool,
    pub local_file_access: bool,
    pub allowed_paths: Vec<String>,
}

/// A [`WebSettings`] by the characters it holds.
pub struct WebSettingsView {
    pub javascript: bool,
    pub images: bool,
    pub background: bool,
    pub media_type: MediaType,
    pub zoom: Seq<char>,
    pub encoding: Option<Seq<char>>,
    pub minimum_font_size: Option<u32>,
    pub viewport: (u32, u32),
    pub username: Option<Seq<char>>,
    pub password: Option<Seq<char>>,
    pub proxy: Option<Seq<char>>,
    pub bypass_proxy_for: Seq<Seq<char>>,
    pub cache_dir: Option<Seq<char>>,
    pub cookies: Seq<PairView>,
    pub custom_headers: Seq<PairView>,
    pub propagate_custom_headers: bool,
    pub local_file_access: bool,
    pub allowed_paths: Seq<Seq<char>>,
}

impl View for WebSettings {
    type V = WebSettingsView;

    open spec fn view(&self) -> WebSettingsView {
        WebSettingsView {
            javascript: self.javascript,
            images: self.images,
            background: self.background,
            media_type: self.media_type,
            zoom: self.zoom@,
            encoding: maybe(self.encoding),
            minimum_font_size: self.minimum_font_size,
            viewport: self.viewport,
            username: maybe(self.username),
            password: maybe(self.password),
            proxy: maybe(self.proxy),
            bypass_proxy_for: texts(self.bypass_proxy_for@),
            cache_dir: maybe(self.cache_dir),
            cookies: pairs_of(self.cookies@),
            custom_headers: pairs_of(self.custom_headers@),
            propagate_custom_headers: self.propagate_custom_headers,
            local_file_access: self.local_file_access,
            allowed_paths: texts(self.allowed_paths@),
        }
    }
}

impl Clone for WebSettings {
    fn clone(&self) -> (copy: WebSettings)
        ensures
            copy@ == self@,
    {
        WebSettings {
            javascript: self.javascript,
            images: self.images,
            background: self.background,
            media_type: self.media_type,
            zoom: self.zoom.clone(),
            encoding: copy_maybe(&self.encoding),
            minimum_font_size: self.minimum_font_size,
            viewport: self.viewport,
            username: copy_maybe(&self.username),
            password: copy_maybe(&self.password),
            proxy: copy_maybe(&self.proxy),
            bypass_proxy_for: copy_texts(&self.bypass_proxy_for),
            cache_dir: copy_maybe(&self.cache_dir),
            cookies: copy_pairs(&self.cookies),
            custom_headers: copy_pairs(&self.custom_headers),
            propagate_custom_headers: self.propagate_custom_headers,
            local_file_access: self.local_file_access,
            allowed_paths: copy_texts(&self.allowed_paths),
        }
    }
}

/// How a table of contents looks.
#[derive(Debug, PartialEq, Eq)]
pub struct TocSettings {
    pub header_text: String,
    pub level_indentation: String,
    pub text_size_shrink: Real,
    pub dotted_lines: bool,
    /// Whether the table links to the headings.
    pub links: bool,
    /// Whether the headings link back to the table.
    pub back_links: bool,
}

/// A [`TocSettings`] by the characters it holds.
pub struct TocSettingsView {
    pub header_text: Seq<char>,
    pub level_indentation: Seq<char>,
    pub text_size_shrink: Seq<char>,
    pub dotted_lines: bool,
    pub links: bool,
    pub back_links: bool,
}

impl View for TocSettings {
    type V = TocSettingsView;

    open spec fn view(&self) -> TocSettingsView {
        TocSettingsView {
            header_text: self.header_text@,
            level_indentation: self.level_indentation@,
            text_size_shrink: self.text_size_shrink@,
            dotted_lines: self.dotted_lines,
            links: self.links,
            back_links: self.back_links,
        }
    }
}

impl Clone for TocSettings {
    fn clone(&self) -> (copy: TocSettings)
        ensures
            copy@ == self@,
    {
        TocSettings {
            header_text: self.header_text.clone(),
            level_indentation: self.level_indentation.clone(),
            text_size_shrink: self.text_size_shrink.clone(),
            dotted_lines: self.dotted_lines,
            links: self.links,
            back_links: self.back_links,
        }
    }
}

/// What becomes of the outline.
#[derive(Debug, PartialEq, Eq)]
pub struct OutlineSettings {
    pub enabled: bool,
    pub depth: u64,
    /// A file to write it to.
    pub dump: Option<String>,
}

/// A [`OutlineSettings`] by the characters it holds.
pub struct OutlineSettingsView {
    pub enabled: bool,
    pub depth: u64,
    pub dump: Option<Seq<char>>,
}

impl View for OutlineSettings {
    type V = OutlineSettingsView;

    open spec fn view(&self) -> OutlineSettingsView {
        OutlineSettingsView {
            enabled: self.enabled,
            depth: self.depth,
            dump: maybe(self.dump),
        }
    }
}

impl Clone for OutlineSettings {
    fn clone(&self) -> (copy: OutlineSettings)
        ensures
            copy@ == self@,
    {
        OutlineSettings {
            enabled: self.enabled,
            depth: self.depth,
            dump: copy_maybe(&self.dump),
        }
    }
}

/// Which browser to drive, and how.
#[derive(Debug, PartialEq, Eq)]
pub struct BrowserSettings {
    pub path: Option<String>,
    pub extra_args: Vec<String>,
    pub no_sandbox: bool,
}

/// A [`BrowserSettings`] by the characters it holds.
pub struct BrowserSettingsView {
    pub path: Option<Seq<char>>,
    pub extra_args: Seq<Seq<char>>,
    pub no_sandbox: bool,
}

impl View for BrowserSettings {
    type V = BrowserSettingsView;

    open spec fn view(&self) -> BrowserSettingsView {
        BrowserSettingsView {
            path: maybe(self.path),
            extra_args: texts(self.extra_args@),
            no_sandbox: self.no_sandbox,
        }
    }
}

impl Clone for BrowserSettings {
    fn clone(&self) -> (copy: BrowserSettings)
        ensures
            copy@ == self@,
    {
        BrowserSettings {
            path: copy_maybe(&self.path),
            extra_args: copy_texts(&self.extra_args),
            no_sandbox: self.no_sandbox,
        }
    }
}

/// What holds for the whole run.
#[derive(Debug, PartialEq, Eq)]
pub struct GlobalSettings {
    pub output: Output,
    pub page: PageSetup,
    pub title: Option<String>,
    pub log_level: LogLevel,
    /// In seconds. Nothing means no limit.
    pub timeout: Option<u64>,
    pub browser: BrowserSettings,
    pub tagged_pdf: bool,
    pub outline: OutlineSettings,
    /// What is added to every page number of the output.
    pub page_offset: i64,
}

/// A [`GlobalSettings`] by the characters it holds.
pub struct GlobalSettingsView {
    pub output: OutputView,
    pub page: PageSetupView,
    pub title: Option<Seq<char>>,
    pub log_level: LogLevel,
    pub timeout: Option<u64>,
    pub browser: BrowserSettingsView,
    pub tagged_pdf: bool,
    pub outline: OutlineSettingsView,
    pub page_offset: i64,
}

impl View for GlobalSettings {
    type V = GlobalSettingsView;

    open spec fn view(&self) -> GlobalSettingsView {
        GlobalSettingsView {
            output: self.output@,
            page: self.page@,
            title: maybe(self.title),
            log_level: self.log_level,
            timeout: self.timeout,
            browser: self.browser@,
            tagged_pdf: self.tagged_pdf,
            outline: self.outline@,
            page_offset: self.page_offset,
        }
    }
}

impl Clone for GlobalSettings {
    fn clone(&self) -> (copy: GlobalSettings)
        ensures
            copy@ == self@,
    {
        GlobalSettings {
            output: self.output.clone(),
            page: self.page.clone(),
            title: copy_maybe(&self.title),
            log_level: self.log_level,
            timeout: self.timeout,
            browser: self.browser.clone(),
            tagged_pdf: self.tagged_pdf,
            outline: self.outline.clone(),
            page_offset: self.page_offset,
        }
    }
}

/// What holds for one object.
#[derive(Debug, PartialEq, Eq)]
pub struct ObjectSettings {
    pub kind: ObjectKind,
    /// A table of contents has none.
    pub input: Option<Input>,
    pub load: LoadSettings,
    pub web: WebSettings,
    pub header: Band,
    pub footer: Band,
    pub replacements: Vec<Pair>,
    pub toc: TocSettings,
    pub links: LinkSettings,
    pub in_outline: bool,
}

/// A [`ObjectSettings`] by the characters it holds.
pub struct ObjectSettingsView {
    pub kind: ObjectKind,
    pub input: Option<InputView>,
    pub load: LoadSettingsView,
    pub web: WebSettingsView,
    pub header: BandView,
    pub footer: BandView,
    pub replacements: Seq<PairView>,
    pub toc: TocSettingsView,
    pub links: LinkSettings,
    pub in_outline: bool,
}

impl View for ObjectSettings {
    type V = ObjectSettingsView;

    open spec fn view(&self) -> ObjectSettingsView {
        ObjectSettingsView {
            kind: self.kind,
            input: maybe_input(self.input),
            load: self.load@,
            web: self.web@,
            header: self.header@,
            footer: self.footer@,
            replacements: pairs_of(self.replacements@),
            toc: self.toc@,
            links: self.links,
            in_outline: self.in_outline,
        }
    }
}

impl Clone for ObjectSettings {
    fn clone(&self) -> (copy: ObjectSettings)
        ensures
            copy@ == self@,
    {
        ObjectSettings {
            kind: self.kind,
            input: copy_input(&self.input),
            load: self.load.clone(),
            web: self.web.clone(),
            header: self.header.clone(),
            footer: self.footer.clone(),
            replacements: copy_pairs(&self.replacements),
            toc: self.toc.clone(),
            links: self.links,
            in_outline: self.in_outline,
        }
    }
}

/// The pairs of a list.
pub open spec fn pairs_of(list: Seq<Pair>) -> Seq<PairView> {
    list.map_values(|pair: Pair| pair@)
}

/// The settings of a list of objects.
pub open spec fn settings_of(list: Seq<ObjectSettings>) -> Seq<ObjectSettingsView> {
    list.map_values(|object: ObjectSettings| object@)
}

/// A copy of a text that may be absent.
pub fn copy_maybe(text: &Option<String>) -> (copy: Option<String>)
    ensures
        maybe(copy) == maybe(*text),
{
    match text {
        Some(text) => Some(text.clone()),
        None => None,
    }
}

fn copy_real(number: &Option<Real>) -> (copy: Option<Real>)
    ensures
        maybe_real(copy) == maybe_real(*number),
{
    match number {
        Some(number) => Some(number.clone()),
        None => None,
    }
}

/// A copy of an input that may be absent.
pub fn copy_input(input: &Option<Input>) -> (copy: Option<Input>)
    ensures
        maybe_input(copy) == maybe_input(*input),
{
    match input {
        Some(input) => Some(input.clone()),
        None => None,
    }
}

/// A copy of a list of pairs.
pub fn copy_pairs(list: &Vec<Pair>) -> (copy: Vec<Pair>)
    ensures
        pairs_of(copy@) == pairs_of(list@),
{
    let mut copy: Vec<Pair> = Vec::new();
    let mut at: usize = 0;
    while at < list.len()
        invariant
            at <= list@.len(),
            pairs_of(copy@) == pairs_of(list@).take(at as int),
        decreases list@.len() - at,
    {
        let ghost before = pairs_of(copy@);
        copy.push(list[at].clone());
        assert(pairs_of(copy@) =~= before.push(pairs_of(list@)[at as int]));
        assert(pairs_of(list@).take(at + 1) =~= before.push(pairs_of(list@)[at as int]));
        at = at + 1;
    }
    assert(pairs_of(copy@) =~= pairs_of(list@));
    copy
}

/// The settings of a whole conversion.
#[derive(Debug, PartialEq, Eq)]
pub struct Settings {
    pub global: GlobalSettings,
    pub objects: Vec<ObjectSettings>,
}

/// A [`Settings`] by the characters it holds.
pub struct SettingsView {
    pub global: GlobalSettingsView,
    pub objects: Seq<ObjectSettingsView>,
}

impl View for Settings {
    type V = SettingsView;

    open spec fn view(&self) -> SettingsView {
        SettingsView { global: self.global@, objects: settings_of(self.objects@) }
    }
}

impl Settings {
    /// The one object of a conversion that has no other.
    pub fn single_object(&self) -> (object: Option<&ObjectSettings>)
        ensures
            match object {
                Some(object) => self.objects@.len() == 1 && *object == self.objects@[0],
                None => self.objects@.len() != 1,
            },
    {
        if self.objects.len() == 1 {
            Some(&self.objects[0])
        } else {
            None
        }
    }
}

/// So many millimetres.
pub open spec fn millimetres(amount: Seq<char>) -> LengthView {
    LengthView { amount, unit: Unit::Mm }
}

fn mm(amount: &str) -> (length: Length)
    ensures
        length@ == millimetres(amount@),
{
    Length { amount: written(amount), unit: Unit::Mm }
}

/// A sheet of A4.
pub open spec fn a4_size() -> PageDimensionsView {
    PageDimensionsView { width: millimetres("210"@), height: millimetres("297"@) }
}

fn a4() -> (size: PageDimensions)
    ensures
        size@ == a4_size(),
{
    PageDimensions { width: mm("210"), height: mm("297") }
}

/// What a [`Margins`] is where nothing is asked for.
pub open spec fn default_margins() -> MarginsView {
    MarginsView {
        top: millimetres("10"@),
        right: millimetres("10"@),
        bottom: millimetres("10"@),
        left: millimetres("10"@),
    }
}

impl Default for Margins {
    fn default() -> (settings: Margins)
        ensures
            settings@ == default_margins(),
    {
        let settings = Margins {
            top: mm("10"),
            right: mm("10"),
            bottom: mm("10"),
            left: mm("10"),
        };
        settings
    }
}

/// What a [`PageSetup`] is where nothing is asked for.
pub open spec fn default_page_setup() -> PageSetupView {
    PageSetupView {
        size: a4_size(),
        orientation: Orientation::Portrait,
        margins: default_margins(),
        named: NamedMargins { top: false, bottom: false },
    }
}

impl Default for PageSetup {
    fn default() -> (settings: PageSetup)
        ensures
            settings@ == default_page_setup(),
    {
        let settings = PageSetup {
            size: a4(),
            orientation: Orientation::Portrait,
            margins: Margins::default(),
            named: NamedMargins { top: false, bottom: false },
        };
        settings
    }
}

/// What a [`Band`] is where nothing is asked for.
pub open spec fn default_band() -> BandView {
    BandView {
        left: None,
        center: None,
        right: None,
        font_name: None,
        font_size: None,
        spacing: None,
        line: false,
        html: None,
    }
}

impl Default for Band {
    fn default() -> (settings: Band)
        ensures
            settings@ == default_band(),
    {
        let settings = Band {
            left: None,
            center: None,
            right: None,
            font_name: None,
            font_size: None,
            spacing: None,
            line: false,
            html: None,
        };
        settings
    }
}

/// What a [`LoadSettings`] is where nothing is asked for.
pub open spec fn default_load_settings() -> LoadSettingsView {
    LoadSettingsView {
        javascript_delay: 200,
        window_status: None,
        run_scripts: Seq::empty(),
        user_style_sheet: None,
        stop_slow_scripts: true,
        on_document_error: LoadErrorHandling::Abort,
        on_media_error: LoadErrorHandling::Ignore,
    }
}

impl Default for LoadSettings {
    fn default() -> (settings: LoadSettings)
        ensures
            settings@ == default_load_settings(),
    {
        let settings = LoadSettings {
            javascript_delay: 200,
            window_status: None,
            run_scripts: Vec::new(),
            user_style_sheet: None,
            stop_slow_scripts: true,
            on_document_error: LoadErrorHandling::Abort,
            on_media_error: LoadErrorHandling::Ignore,
        };
        assert(settings@.run_scripts =~= Seq::empty());
        settings
    }
}

/// What a [`WebSettings`] is where nothing is asked for.
pub open spec fn default_web_settings() -> WebSettingsView {
    WebSettingsView {
        javascript: true,
        images: true,
        background: true,
        media_type: MediaType::Screen,
        zoom: "1"@,
        encoding: None,
        minimum_font_size: None,
        viewport: (1024, 768),
        username: None,
        password: None,
        proxy: None,
        bypass_proxy_for: Seq::empty(),
        cache_dir: None,
        cookies: Seq::empty(),
        custom_headers: Seq::empty(),
        propagate_custom_headers: false,
        local_file_access: false,
        allowed_paths: Seq::empty(),
    }
}

impl Default for WebSettings {
    fn default() -> (settings: WebSettings)
        ensures
            settings@ == default_web_settings(),
    {
        let settings = WebSettings {
            javascript: true,
            images: true,
            background: true,
            media_type: MediaType::Screen,
            zoom: written("1"),
            encoding: None,
            minimum_font_size: None,
            viewport: (1024, 768),
            username: None,
            password: None,
            proxy: None,
            bypass_proxy_for: Vec::new(),
            cache_dir: None,
            cookies: Vec::new(),
            custom_headers: Vec::new(),
            propagate_custom_headers: false,
            local_file_access: false,
            allowed_paths: Vec::new(),
        };
        assert(settings@.bypass_proxy_for =~= Seq::empty());
        assert(settings@.cookies =~= Seq::empty());
        assert(settings@.custom_headers =~= Seq::empty());
        assert(settings@.allowed_paths =~= Seq::empty());
        settings
    }
}

/// What a [`TocSettings`] is where nothing is asked for.
pub open spec fn default_toc_settings() -> TocSettingsView {
    TocSettingsView {
        header_text: "Table of Contents"@,
        level_indentation: "1em"@,
        text_size_shrink: "0.8"@,
        dotted_lines: true,
        links: true,
        back_links: false,
    }
}

impl Default for TocSettings {
    fn default() -> (settings: TocSettings)
        ensures
            settings@ == default_toc_settings(),
    {
        let settings = TocSettings {
            header_text: "Table of Contents".to_owned(),
            level_indentation: "1em".to_owned(),
            text_size_shrink: written("0.8"),
            dotted_lines: true,
            links: true,
            back_links: false,
        };
        settings
    }
}

/// What a [`OutlineSettings`] is where nothing is asked for.
pub open spec fn default_outline_settings() -> OutlineSettingsView {
    OutlineSettingsView {
        enabled: true,
        depth: 4,
        dump: None,
    }
}

impl Default for OutlineSettings {
    fn default() -> (settings: OutlineSettings)
        ensures
            settings@ == default_outline_settings(),
    {
        let settings = OutlineSettings {
            enabled: true,
            depth: 4,
            dump: None,
        };
        settings
    }
}

/// What a [`BrowserSettings`] is where nothing is asked for.
pub open spec fn default_browser_settings() -> BrowserSettingsView {
    BrowserSettingsView {
        path: None,
        extra_args: Seq::empty(),
        no_sandbox: false,
    }
}

impl Default for BrowserSettings {
    fn default() -> (settings: BrowserSettings)
        ensures
            settings@ == default_browser_settings(),
    {
        let settings = BrowserSettings {
            path: None,
            extra_args: Vec::new(),
            no_sandbox: false,
        };
        assert(settings@.extra_args =~= Seq::empty());
        settings
    }
}

/// What a [`GlobalSettings`] is where nothing is asked for.
pub open spec fn default_global_settings() -> GlobalSettingsView {
    GlobalSettingsView {
        output: OutputView::Stdout,
        page: default_page_setup(),
        title: None,
        log_level: LogLevel::Info,
        timeout: Some(30),
        browser: default_browser_settings(),
        tagged_pdf: false,
        outline: default_outline_settings(),
        page_offset: 0,
    }
}

impl Default for GlobalSettings {
    fn default() -> (settings: GlobalSettings)
        ensures
            settings@ == default_global_settings(),
    {
        let settings = GlobalSettings {
            output: Output::Stdout,
            page: PageSetup::default(),
            title: None,
            log_level: LogLevel::Info,
            timeout: Some(30),
            browser: BrowserSettings::default(),
            tagged_pdf: false,
            outline: OutlineSettings::default(),
            page_offset: 0,
        };
        settings
    }
}

impl Default for Settings {
    fn default() -> (settings: Settings)
        ensures
            settings@ == (SettingsView {
                global: default_global_settings(),
                objects: Seq::empty(),
            }),
    {
        let settings = Settings { global: GlobalSettings::default(), objects: Vec::new() };
        assert(settings_of(settings.objects@) =~= Seq::empty());
        settings
    }
}

/// What a [`LinkSettings`] is where nothing is asked for.
pub open spec fn default_link_settings() -> LinkSettings {
    LinkSettings { external: true, internal: true, resolve_relative: true }
}

impl Default for LinkSettings {
    fn default() -> (settings: LinkSettings)
        ensures
            settings == default_link_settings(),
    {
        LinkSettings { external: true, internal: true, resolve_relative: true }
    }
}

/// A page with a document and nothing else asked for.
pub open spec fn page_settings(input: InputView) -> ObjectSettingsView {
    ObjectSettingsView {
        kind: ObjectKind::Page,
        input: Some(input),
        load: default_load_settings(),
        web: default_web_settings(),
        header: default_band(),
        footer: default_band(),
        replacements: Seq::empty(),
        toc: default_toc_settings(),
        links: default_link_settings(),
        in_outline: true,
    }
}

impl ObjectSettings {
    /// A page with a document and nothing else asked for.
    pub fn page(input: Input) -> (object: ObjectSettings)
        ensures
            object@ == page_settings(input@),
    {
        let object = ObjectSettings {
            kind: ObjectKind::Page,
            input: Some(input),
            load: LoadSettings::default(),
            web: WebSettings::default(),
            header: Band::default(),
            footer: Band::default(),
            replacements: Vec::new(),
            toc: TocSettings::default(),
            links: LinkSettings::default(),
            in_outline: true,
        };
        assert(object@.replacements =~= Seq::empty());
        object
    }
}

/// Whether a band draws nothing.
pub open spec fn band_is_empty(band: BandView) -> bool {
    band.left is None && band.center is None && band.right is None && band.html is None
        && !band.line
}

impl Band {
    /// Whether the band draws nothing.
    pub fn is_empty(&self) -> (yes: bool)
        ensures
            yes == band_is_empty(self@),
    {
        self.left.is_none() && self.center.is_none() && self.right.is_none() && self.html.is_none()
            && !self.line
    }
}

/// Whether anything is to be done with an outline.
pub open spec fn outline_is_wanted(outline: OutlineSettingsView) -> bool {
    outline.enabled || outline.dump is Some
}

impl OutlineSettings {
    /// Whether anything is to be done with the outline.
    pub fn wanted(&self) -> (yes: bool)
        ensures
            yes == outline_is_wanted(self@),
    {
        self.enabled || self.dump.is_some()
    }
}

/// The level that a name stands for, in either case.
pub open spec fn log_level_of(name: Seq<char>) -> Option<LogLevel> {
    let word = lowered(name);
    if word == "none"@ {
        Some(LogLevel::Quiet)
    } else if word == "error"@ {
        Some(LogLevel::Error)
    } else if word == "warn"@ {
        Some(LogLevel::Warn)
    } else if word == "info"@ {
        Some(LogLevel::Info)
    } else {
        None
    }
}

impl LogLevel {
    pub fn parse(name: &str) -> (level: Option<LogLevel>)
        ensures
            level == log_level_of(name@),
    {
        let word = lower(name);
        if same(&word, "none") {
            Some(LogLevel::Quiet)
        } else if same(&word, "error") {
            Some(LogLevel::Error)
        } else if same(&word, "warn") {
            Some(LogLevel::Warn)
        } else if same(&word, "info") {
            Some(LogLevel::Info)
        } else {
            None
        }
    }

    /// Whether failures are reported.
    pub fn shows_errors(self) -> (yes: bool)
        ensures
            yes == !(self is Quiet),
    {
        !matches!(self, LogLevel::Quiet)
    }

    /// Whether warnings are reported.
    pub fn shows_warnings(self) -> (yes: bool)
        ensures
            yes == (self is Warn || self is Info),
    {
        matches!(self, LogLevel::Warn | LogLevel::Info)
    }

    /// Whether progress is reported.
    pub fn shows_progress(self) -> (yes: bool)
        ensures
            yes == (self is Info),
    {
        matches!(self, LogLevel::Info)
    }
}

/// The orientation that a name stands for, in either case.
pub open spec fn orientation_of(name: Seq<char>) -> Option<Orientation> {
    let word = lowered(name);
    if word == "portrait"@ {
        Some(Orientation::Portrait)
    } else if word == "landscape"@ {
        Some(Orientation::Landscape)
    } else {
        None
    }
}

impl Orientation {
    pub fn parse(name: &str) -> (orientation: Option<Orientation>)
        ensures
            orientation == orientation_of(name@),
    {
        let word = lower(name);
        if same(&word, "portrait") {
            Some(Orientation::Portrait)
        } else if same(&word, "landscape") {
            Some(Orientation::Landscape)
        } else {
            None
        }
    }
}

/// The handling that a name stands for, in either case.
pub open spec fn handling_of(name: Seq<char>) -> Option<LoadErrorHandling> {
    let word = lowered(name);
    if word == "abort"@ {
        Some(LoadErrorHandling::Abort)
    } else if word == "skip"@ {
        Some(LoadErrorHandling::Skip)
    } else if word == "ignore"@ {
        Some(LoadErrorHandling::Ignore)
    } else {
        None
    }
}

impl LoadErrorHandling {
    pub fn parse(name: &str) -> (handling: Option<LoadErrorHandling>)
        ensures
            handling == handling_of(name@),
    {
        let word = lower(name);
        if same(&word, "abort") {
            Some(LoadErrorHandling::Abort)
        } else if same(&word, "skip") {
            Some(LoadErrorHandling::Skip)
        } else if same(&word, "ignore") {
            Some(LoadErrorHandling::Ignore)
        } else {
            None
        }
    }
}

/// The unit that two characters spell.
pub open spec fn unit_of(word: Seq<char>) -> Option<Unit> {
    if word == "mm"@ {
        Some(Unit::Mm)
    } else if word == "cm"@ {
        Some(Unit::Cm)
    } else if word == "in"@ {
        Some(Unit::In)
    } else if word == "pt"@ {
        Some(Unit::Pt)
    } else if word == "px"@ {
        Some(Unit::Px)
    } else {
        None
    }
}

/// A length: a finite number and the unit behind it. A bare number is in
/// millimetres.
pub open spec fn length_of(text: Seq<char>) -> Option<LengthView> {
    let all = trimmed(text);
    let unit = if all.len() >= 2 {
        unit_of(lowered(all.skip(all.len() - 2)))
    } else {
        None
    };
    let (amount, unit) = match unit {
        Some(unit) => (trimmed_end(all.take(all.len() - 2)), unit),
        None => (all, Unit::Mm),
    };
    if is_finite_real(amount) {
        Some(LengthView { amount, unit })
    } else {
        None
    }
}

/// A length that may be absent.
pub open spec fn maybe_length(length: Option<Length>) -> Option<LengthView> {
    match length {
        Some(length) => Some(length@),
        None => None,
    }
}

fn unit_named(word: &str) -> (unit: Option<Unit>)
    ensures
        unit == unit_of(word@),
{
    if same(word, "mm") {
        Some(Unit::Mm)
    } else if same(word, "cm") {
        Some(Unit::Cm)
    } else if same(word, "in") {
        Some(Unit::In)
    } else if same(word, "pt") {
        Some(Unit::Pt)
    } else if same(word, "px") {
        Some(Unit::Px)
    } else {
        None
    }
}

impl Length {
    /// Read a length.
    pub fn parse(text: &str) -> (length: Option<Length>)
        ensures
            maybe_length(length) == length_of(text@),
    {
        let all = trim(text);
        let size: usize = all.len();
        let mut amount: Vec<char> = Vec::new();
        let mut unit: Option<Unit> = None;
        if size >= 2 {
            let word = text_of(&all, size - 2, size);
            assert(word@ =~= all@.skip(all@.len() - 2));
            unit = unit_named(&lower(&word));
        }
        let unit = match unit {
            Some(unit) => {
                let head = text_of(&all, 0, size - 2);
                assert(head@ =~= all@.take(all@.len() - 2));
                amount = trim_end(&head);
                unit
            },
            None => {
                amount = all;
                Unit::Mm
            },
        };
        if spells_finite(&amount) {
            let size: usize = amount.len();
            let text = text_of(&amount, 0, size);
            assert(text@ =~= amount@);
            Some(Length { amount: Real { text }, unit })
        } else {
            None
        }
    }
}

/// The characters of a text, without the white space at its end.
fn trim_end(text: &str) -> (chars: Vec<char>)
    ensures
        chars@ == trimmed_end(text@),
{
    let mut chars = chars_of(text);
    while chars.len() > 0 && crate::numbers::space(chars[chars.len() - 1])
        invariant
            trimmed_end(text@) == trimmed_end(chars@),
        decreases chars@.len(),
    {
        let _ = chars.pop();
    }
    chars
}

/// The names of the papers, in the order they are listed.
pub open spec fn paper_names() -> Seq<&'static str> {
    seq![
        "A0",
        "A1",
        "A2",
        "A3",
        "A4",
        "A5",
        "A6",
        "A7",
        "A8",
        "A9",
        "B0",
        "B1",
        "B2",
        "B3",
        "B4",
        "B5",
        "B6",
        "B7",
        "B8",
        "B9",
        "B10",
        "C5E",
        "Comm10E",
        "DLE",
        "Executive",
        "Folio",
        "Ledger",
        "Legal",
        "Letter",
        "Tabloid",
    ]
}

/// The names of the papers, in the order they are listed.
pub fn all_names() -> (names: Vec<&'static str>)
    ensures
        names@ == paper_names(),
{
    let names = vec![
        "A0",
        "A1",
        "A2",
        "A3",
        "A4",
        "A5",
        "A6",
        "A7",
        "A8",
        "A9",
        "B0",
        "B1",
        "B2",
        "B3",
        "B4",
        "B5",
        "B6",
        "B7",
        "B8",
        "B9",
        "B10",
        "C5E",
        "Comm10E",
        "DLE",
        "Executive",
        "Folio",
        "Ledger",
        "Legal",
        "Letter",
        "Tabloid",
    ];
    assert(names@ =~= paper_names());
    names
}

/// A sheet by its sides in millimetres.
pub open spec fn sheet(width: Seq<char>, height: Seq<char>) -> PageDimensionsView {
    PageDimensionsView { width: millimetres(width), height: millimetres(height) }
}

/// The paper that a name stands for, in either case.
pub open spec fn paper_of(name: Seq<char>) -> Option<PageDimensionsView> {
    let word = lowered(name);
    if word == "a0"@ {
        Some(sheet("841"@, "1189"@))
    } else if word == "a1"@ {
        Some(sheet("594"@, "841"@))
    } else if word == "a2"@ {
        Some(sheet("420"@, "594"@))
    } else if word == "a3"@ {
        Some(sheet("297"@, "420"@))
    } else if word == "a4"@ {
        Some(sheet("210"@, "297"@))
    } else if word == "a5"@ {
        Some(sheet("148"@, "210"@))
    } else if word == "a6"@ {
        Some(sheet("105"@, "148"@))
    } else if word == "a7"@ {
        Some(sheet("74"@, "105"@))
    } else if word == "a8"@ {
        Some(sheet("52"@, "74"@))
    } else if word == "a9"@ {
        Some(sheet("37"@, "52"@))
    } else if word == "b0"@ {
        Some(sheet("1000"@, "1414"@))
    } else if word == "b1"@ {
        Some(sheet("707"@, "1000"@))
    } else if word == "b2"@ {
        Some(sheet("500"@, "707"@))
    } else if word == "b3"@ {
        Some(sheet("353"@, "500"@))
    } else if word == "b4"@ {
        Some(sheet("250"@, "353"@))
    } else if word == "b5"@ {
        Some(sheet("176"@, "250"@))
    } else if word == "b6"@ {
        Some(sheet("125"@, "176"@))
    } else if word == "b7"@ {
        Some(sheet("88"@, "125"@))
    } else if word == "b8"@ {
        Some(sheet("62"@, "88"@))
    } else if word == "b9"@ {
        Some(sheet("44"@, "62"@))
    } else if word == "b10"@ {
        Some(sheet("31"@, "44"@))
    } else if word == "c5e"@ {
        Some(sheet("163"@, "229"@))
    } else if word == "comm10e"@ {
        Some(sheet("105"@, "241"@))
    } else if word == "dle"@ {
        Some(sheet("110"@, "220"@))
    } else if word == "executive"@ {
        Some(sheet("190.5"@, "254"@))
    } else if word == "folio"@ {
        Some(sheet("210"@, "330"@))
    } else if word == "ledger"@ {
        Some(sheet("431.8"@, "279.4"@))
    } else if word == "legal"@ {
        Some(sheet("215.9"@, "355.6"@))
    } else if word == "letter"@ {
        Some(sheet("215.9"@, "279.4"@))
    } else if word == "tabloid"@ {
        Some(sheet("279.4"@, "431.8"@))
    } else {
        None
    }
}

/// A size that may be absent.
pub open spec fn maybe_size(size: Option<PageDimensions>) -> Option<PageDimensionsView> {
    match size {
        Some(size) => Some(size@),
        None => None,
    }
}

/// The paper that a name stands for.
pub fn lookup_paper(name: &str) -> (size: Option<PageDimensions>)
    ensures
        maybe_size(size) == paper_of(name@),
{
    let word = lower(name);
    if same(&word, "a0") {
        Some(PageDimensions { width: mm("841"), height: mm("1189") })
    } else if same(&word, "a1") {
        Some(PageDimensions { width: mm("594"), height: mm("841") })
    } else if same(&word, "a2") {
        Some(PageDimensions { width: mm("420"), height: mm("594") })
    } else if same(&word, "a3") {
        Some(PageDimensions { width: mm("297"), height: mm("420") })
    } else if same(&word, "a4") {
        Some(PageDimensions { width: mm("210"), height: mm("297") })
    } else if same(&word, "a5") {
        Some(PageDimensions { width: mm("148"), height: mm("210") })
    } else if same(&word, "a6") {
        Some(PageDimensions { width: mm("105"), height: mm("148") })
    } else if same(&word, "a7") {
        Some(PageDimensions { width: mm("74"), height: mm("105") })
    } else if same(&word, "a8") {
        Some(PageDimensions { width: mm("52"), height: mm("74") })
    } else if same(&word, "a9") {
        Some(PageDimensions { width: mm("37"), height: mm("52") })
    } else if same(&word, "b0") {
        Some(PageDimensions { width: mm("1000"), height: mm("1414") })
    } else if same(&word, "b1") {
        Some(PageDimensions { width: mm("707"), height: mm("1000") })
    } else if same(&word, "b2") {
        Some(PageDimensions { width: mm("500"), height: mm("707") })
    } else if same(&word, "b3") {
        Some(PageDimensions { width: mm("353"), height: mm("500") })
    } else if same(&word, "b4") {
        Some(PageDimensions { width: mm("250"), height: mm("353") })
    } else if same(&word, "b5") {
        Some(PageDimensions { width: mm("176"), height: mm("250") })
    } else if same(&word, "b6") {
        Some(PageDimensions { width: mm("125"), height: mm("176") })
    } else if same(&word, "b7") {
        Some(PageDimensions { width: mm("88"), height: mm("125") })
    } else if same(&word, "b8") {
        Some(PageDimensions { width: mm("62"), height: mm("88") })
    } else if same(&word, "b9") {
        Some(PageDimensions { width: mm("44"), height: mm("62") })
    } else if same(&word, "b10") {
        Some(PageDimensions { width: mm("31"), height: mm("44") })
    } else if same(&word, "c5e") {
        Some(PageDimensions { width: mm("163"), height: mm("229") })
    } else if same(&word, "comm10e") {
        Some(PageDimensions { width: mm("105"), height: mm("241") })
    } else if same(&word, "dle") {
        Some(PageDimensions { width: mm("110"), height: mm("220") })
    } else if same(&word, "executive") {
        Some(PageDimensions { width: mm("190.5"), height: mm("254") })
    } else if same(&word, "folio") {
        Some(PageDimensions { width: mm("210"), height: mm("330") })
    } else if same(&word, "ledger") {
        Some(PageDimensions { width: mm("431.8"), height: mm("279.4") })
    } else if same(&word, "legal") {
        Some(PageDimensions { width: mm("215.9"), height: mm("355.6") })
    } else if same(&word, "letter") {
        Some(PageDimensions { width: mm("215.9"), height: mm("279.4") })
    } else if same(&word, "tabloid") {
        Some(PageDimensions { width: mm("279.4"), height: mm("431.8") })
    } else {
        None
    }
}

/// A bare number in a length is in millimetres.
pub proof fn law_a_bare_number_is_in_millimetres(text: Seq<char>)
    requires
        is_finite_real(trimmed(text)),
    ensures
        length_of(text) == Some(LengthView { amount: trimmed(text), unit: Unit::Mm }),
{
    let all = trimmed(text);
    lemma_a_number_ends(all);
    if all.len() >= 2 {
        let word = lowered(all.skip(all.len() - 2));
        reveal_strlit("mm");
        reveal_strlit("cm");
        reveal_strlit("in");
        reveal_strlit("pt");
        reveal_strlit("px");
        assert(all.skip(all.len() - 2)[1] == all.last());
        assert(word[1] == all.last());
        assert("mm"@[1] == 'm' && "cm"@[1] == 'm' && "in"@[1] == 'n' && "pt"@[1] == 't'
            && "px"@[1] == 'x');
    }
}

spec fn letter(name: Seq<char>, at: int) -> int {
    if 0 <= at < name.len() {
        name[at] as int
    } else {
        0
    }
}

/// A number that tells the names of papers and of other choices apart, by a few of
/// their letters.
spec fn mark(name: Seq<char>) -> int {
    letter(name, 0) + 0x80 * letter(name, 1) + 0x4000 * letter(name, 2)
}

proof fn lemma_small_paper_marks()
    ensures
        mark("a0"@) == 0x1861,
        mark("a1"@) == 0x18e1,
        mark("a2"@) == 0x1961,
        mark("a3"@) == 0x19e1,
        mark("a4"@) == 0x1a61,
        mark("a5"@) == 0x1ae1,
        mark("a6"@) == 0x1b61,
        mark("a7"@) == 0x1be1,
        mark("a8"@) == 0x1c61,
        mark("a9"@) == 0x1ce1,
        mark("b0"@) == 0x1862,
        mark("b1"@) == 0x18e2,
        mark("b2"@) == 0x1962,
        mark("b3"@) == 0x19e2,
        mark("b4"@) == 0x1a62,
        mark("b5"@) == 0x1ae2,
{
    reveal_strlit("a0");
    reveal_strlit("a1");
    reveal_strlit("a2");
    reveal_strlit("a3");
    reveal_strlit("a4");
    reveal_strlit("a5");
    reveal_strlit("a6");
    reveal_strlit("a7");
    reveal_strlit("a8");
    reveal_strlit("a9");
    reveal_strlit("b0");
    reveal_strlit("b1");
    reveal_strlit("b2");
    reveal_strlit("b3");
    reveal_strlit("b4");
    reveal_strlit("b5");
}

proof fn lemma_large_paper_marks()
    ensures
        mark("b6"@) == 0x1b62,
        mark("b7"@) == 0x1be2,
        mark("b8"@) == 0x1c62,
        mark("b9"@) == 0x1ce2,
        mark("b10"@) == 0xc18e2,
        mark("c5e"@) == 0x195ae3,
        mark("comm10e"@) == 0x1b77e3,
        mark("dle"@) == 0x197664,
        mark("executive"@) == 0x197c65,
        mark("folio"@) == 0x1b37e6,
        mark("ledger"@) == 0x1932ec,
        mark("legal"@) == 0x19f2ec,
        mark("letter"@) == 0x1d32ec,
        mark("tabloid"@) == 0x18b0f4,
{
    reveal_strlit("b6");
    reveal_strlit("b7");
    reveal_strlit("b8");
    reveal_strlit("b9");
    reveal_strlit("b10");
    reveal_strlit("c5e");
    reveal_strlit("comm10e");
    reveal_strlit("dle");
    reveal_strlit("executive");
    reveal_strlit("folio");
    reveal_strlit("ledger");
    reveal_strlit("legal");
    reveal_strlit("letter");
    reveal_strlit("tabloid");
}

proof fn lemma_choice_marks()
    ensures
        mark("none"@) == 0x1bb7ee,
        mark("error"@) == 0x1cb965,
        mark("warn"@) == 0x1cb0f7,
        mark("info"@) == 0x19b769,
        mark("portrait"@) == 0x1cb7f0,
        mark("landscape"@) == 0x1bb0ec,
        mark("abort"@) == 0x1bf161,
        mark("skip"@) == 0x1a75f3,
        mark("ignore"@) == 0x1bb3e9,
{
    reveal_strlit("none");
    reveal_strlit("error");
    reveal_strlit("warn");
    reveal_strlit("info");
    reveal_strlit("portrait");
    reveal_strlit("landscape");
    reveal_strlit("abort");
    reveal_strlit("skip");
    reveal_strlit("ignore");
}

/// Every paper has its sides in millimetres, whatever the case its name is written in,
/// and no other name stands for a paper.
#[verifier::spinoff_prover]
#[verifier::rlimit(60)]
pub proof fn law_papers_have_their_sides(name: Seq<char>)
    ensures
        lowered(name) == "a0"@ ==> paper_of(name) == Some(
            PageDimensionsView {
                width: LengthView { amount: "841"@, unit: Unit::Mm },
                height: LengthView { amount: "1189"@, unit: Unit::Mm },
            },
        ),
        lowered(name) == "a1"@ ==> paper_of(name) == Some(
            PageDimensionsView {
                width: LengthView { amount: "594"@, unit: Unit::Mm },
                height: LengthView { amount: "841"@, unit: Unit::Mm },
            },
        ),
        lowered(name) == "a2"@ ==> paper_of(name) == Some(
            PageDimensionsView {
                width: LengthView { amount: "420"@, unit: Unit::Mm },
                height: LengthView { amount: "594"@, unit: Unit::Mm },
            },
        ),
        lowered(name) == "a3"@ ==> paper_of(name) == Some(
            PageDimensionsView {
                width: LengthView { amount: "297"@, unit: Unit::Mm },
                height: LengthView { amount: "420"@, unit: Unit::Mm },
            },
        ),
        lowered(name) == "a4"@ ==> paper_of(name) == Some(
            PageDimensionsView {
                width: LengthView { amount: "210"@, unit: Unit::Mm },
                height: LengthView { amount: "297"@, unit: Unit::Mm },
            },
        ),
        lowered(name) == "a5"@ ==> paper_of(name) == Some(
            PageDimensionsView {
                width: LengthView { amount: "148"@, unit: Unit::Mm },
                height: LengthView { amount: "210"@, unit: Unit::Mm },
            },
        ),
        lowered(name) == "a6"@ ==> paper_of(name) == Some(
            PageDimensionsView {
                width: LengthView { amount: "105"@, unit: Unit::Mm },
                height: LengthView { amount: "148"@, unit: Unit::Mm },
            },
        ),
        lowered(name) == "a7"@ ==> paper_of(name) == Some(
            PageDimensionsView {
                width: LengthView { amount: "74"@, unit: Unit::Mm },
                height: LengthView { amount: "105"@, unit: Unit::Mm },
            },
        ),
        lowered(name) == "a8"@ ==> paper_of(name) == Some(
            PageDimensionsView {
                width: LengthView { amount: "52"@, unit: Unit::Mm },
                height: LengthView { amount: "74"@, unit: Unit::Mm },
            },
        ),
        lowered(name) == "a9"@ ==> paper_of(name) == Some(
            PageDimensionsView {
                width: LengthView { amount: "37"@, unit: Unit::Mm },
                height: LengthView { amount: "52"@, unit: Unit::Mm },
            },
        ),
        lowered(name) == "b0"@ ==> paper_of(name) == Some(
            PageDimensionsView {
                width: LengthView { amount: "1000"@, unit: Unit::Mm },
                height: LengthView { amount: "1414"@, unit: Unit::Mm },
            },
        ),
        lowered(name) == "b1"@ ==> paper_of(name) == Some(
            PageDimensionsView {
                width: LengthView { amount: "707"@, unit: Unit::Mm },
                height: LengthView { amount: "1000"@, unit: Unit::Mm },
            },
        ),
        lowered(name) == "b2"@ ==> paper_of(name) == Some(
            PageDimensionsView {
                width: LengthView { amount: "500"@, unit: Unit::Mm },
                height: LengthView { amount: "707"@, unit: Unit::Mm },
            },
        ),
        lowered(name) == "b3"@ ==> paper_of(name) == Some(
            PageDimensionsView {
                width: LengthView { amount: "353"@, unit: Unit::Mm },
                height: LengthView { amount: "500"@, unit: Unit::Mm },
            },
        ),
        lowered(name) == "b4"@ ==> paper_of(name) == Some(
            PageDimensionsView {
                width: LengthView { amount: "250"@, unit: Unit::Mm },
                height: LengthView { amount: "353"@, unit: Unit::Mm },
            },
        ),
        lowered(name) == "b5"@ ==> paper_of(name) == Some(
            PageDimensionsView {
                width: LengthView { amount: "176"@, unit: Unit::Mm },
                height: LengthView { amount: "250"@, unit: Unit::Mm },
            },
        ),
        lowered(name) == "b6"@ ==> paper_of(name) == Some(
            PageDimensionsView {
                width: LengthView { amount: "125"@, unit: Unit::Mm },
                height: LengthView { amount: "176"@, unit: Unit::Mm },
            },
        ),
        lowered(name) == "b7"@ ==> paper_of(name) == Some(
            PageDimensionsView {
                width: LengthView { amount: "88"@, unit: Unit::Mm },
                height: LengthView { amount: "125"@, unit: Unit::Mm },
            },
        ),
        lowered(name) == "b8"@ ==> paper_of(name) == Some(
            PageDimensionsView {
                width: LengthView { amount: "62"@, unit: Unit::Mm },
                height: LengthView { amount: "88"@, unit: Unit::Mm },
            },
        ),
        lowered(name) == "b9"@ ==> paper_of(name) == Some(
            PageDimensionsView {
                width: LengthView { amount: "44"@, unit: Unit::Mm },
                height: LengthView { amount: "62"@, unit: Unit::Mm },
            },
        ),
        lowered(name) == "b10"@ ==> paper_of(name) == Some(
            PageDimensionsView {
                width: LengthView { amount: "31"@, unit: Unit::Mm },
                height: LengthView { amount: "44"@, unit: Unit::Mm },
            },
        ),
        lowered(name) == "c5e"@ ==> paper_of(name) == Some(
            PageDimensionsView {
                width: LengthView { amount: "163"@, unit: Unit::Mm },
                height: LengthView { amount: "229"@, unit: Unit::Mm },
            },
        ),
        lowered(name) == "comm10e"@ ==> paper_of(name) == Some(
            PageDimensionsView {
                width: LengthView { amount: "105"@, unit: Unit::Mm },
                height: LengthView { amount: "241"@, unit: Unit::Mm },
            },
        ),
        lowered(name) == "dle"@ ==> paper_of(name) == Some(
            PageDimensionsView {
                width: LengthView { amount: "110"@, unit: Unit::Mm },
                height: LengthView { amount: "220"@, unit: Unit::Mm },
            },
        ),
        lowered(name) == "executive"@ ==> paper_of(name) == Some(
            PageDimensionsView {
                width: LengthView { amount: "190.5"@, unit: Unit::Mm },
                height: LengthView { amount: "254"@, unit: Unit::Mm },
            },
        ),
        lowered(name) == "folio"@ ==> paper_of(name) == Some(
            PageDimensionsView {
                width: LengthView { amount: "210"@, unit: Unit::Mm },
                height: LengthView { amount: "330"@, unit: Unit::Mm },
            },
        ),
        lowered(name) == "ledger"@ ==> paper_of(name) == Some(
            PageDimensionsView {
                width: LengthView { amount: "431.8"@, unit: Unit::Mm },
                height: LengthView { amount: "279.4"@, unit: Unit::Mm },
            },
        ),
        lowered(name) == "legal"@ ==> paper_of(name) == Some(
            PageDimensionsView {
                width: LengthView { amount: "215.9"@, unit: Unit::Mm },
                height: LengthView { amount: "355.6"@, unit: Unit::Mm },
            },
        ),
        lowered(name) == "letter"@ ==> paper_of(name) == Some(
            PageDimensionsView {
                width: LengthView { amount: "215.9"@, unit: Unit::Mm },
                height: LengthView { amount: "279.4"@, unit: Unit::Mm },
            },
        ),
        lowered(name) == "tabloid"@ ==> paper_of(name) == Some(
            PageDimensionsView {
                width: LengthView { amount: "279.4"@, unit: Unit::Mm },
                height: LengthView { amount: "431.8"@, unit: Unit::Mm },
            },
        ),
        paper_of(name) is Some ==> exists|i: int|
            0 <= i < paper_names().len() && #[trigger] lowered(paper_names()[i]@) == lowered(name),
{
    lemma_small_paper_marks();
    lemma_large_paper_marks();
    if paper_of(name) is Some {
        lemma_papers_are_listed(name);
    }
}

#[verifier::spinoff_prover]
proof fn lemma_listed_a()
    ensures
        lowered(paper_names()[0]@) == "a0"@,
        lowered(paper_names()[1]@) == "a1"@,
        lowered(paper_names()[2]@) == "a2"@,
        lowered(paper_names()[3]@) == "a3"@,
        lowered(paper_names()[4]@) == "a4"@,
        lowered(paper_names()[5]@) == "a5"@,
        lowered(paper_names()[6]@) == "a6"@,
        lowered(paper_names()[7]@) == "a7"@,
{
    reveal_strlit("A0");
    reveal_strlit("a0");
    assert(lowered("A0"@) =~= "a0"@);
    reveal_strlit("A1");
    reveal_strlit("a1");
    assert(lowered("A1"@) =~= "a1"@);
    reveal_strlit("A2");
    reveal_strlit("a2");
    assert(lowered("A2"@) =~= "a2"@);
    reveal_strlit("A3");
    reveal_strlit("a3");
    assert(lowered("A3"@) =~= "a3"@);
    reveal_strlit("A4");
    reveal_strlit("a4");
    assert(lowered("A4"@) =~= "a4"@);
    reveal_strlit("A5");
    reveal_strlit("a5");
    assert(lowered("A5"@) =~= "a5"@);
    reveal_strlit("A6");
    reveal_strlit("a6");
    assert(lowered("A6"@) =~= "a6"@);
    reveal_strlit("A7");
    reveal_strlit("a7");
    assert(lowered("A7"@) =~= "a7"@);
}

#[verifier::spinoff_prover]
proof fn lemma_listed_b()
    ensures
        lowered(paper_names()[8]@) == "a8"@,
        lowered(paper_names()[9]@) == "a9"@,
        lowered(paper_names()[10]@) == "b0"@,
        lowered(paper_names()[11]@) == "b1"@,
        lowered(paper_names()[12]@) == "b2"@,
        lowered(paper_names()[13]@) == "b3"@,
        lowered(paper_names()[14]@) == "b4"@,
        lowered(paper_names()[15]@) == "b5"@,
{
    reveal_strlit("A8");
    reveal_strlit("a8");
    assert(lowered("A8"@) =~= "a8"@);
    reveal_strlit("A9");
    reveal_strlit("a9");
    assert(lowered("A9"@) =~= "a9"@);
    reveal_strlit("B0");
    reveal_strlit("b0");
    assert(lowered("B0"@) =~= "b0"@);
    reveal_strlit("B1");
    reveal_strlit("b1");
    assert(lowered("B1"@) =~= "b1"@);
    reveal_strlit("B2");
    reveal_strlit("b2");
    assert(lowered("B2"@) =~= "b2"@);
    reveal_strlit("B3");
    reveal_strlit("b3");
    assert(lowered("B3"@) =~= "b3"@);
    reveal_strlit("B4");
    reveal_strlit("b4");
    assert(lowered("B4"@) =~= "b4"@);
    reveal_strlit("B5");
    reveal_strlit("b5");
    assert(lowered("B5"@) =~= "b5"@);
}

#[verifier::spinoff_prover]
proof fn lemma_listed_c()
    ensures
        lowered(paper_names()[16]@) == "b6"@,
        lowered(paper_names()[17]@) == "b7"@,
        lowered(paper_names()[18]@) == "b8"@,
        lowered(paper_names()[19]@) == "b9"@,
        lowered(paper_names()[20]@) == "b10"@,
        lowered(paper_names()[21]@) == "c5e"@,
        lowered(paper_names()[22]@) == "comm10e"@,
        lowered(paper_names()[23]@) == "dle"@,
{
    reveal_strlit("B6");
    reveal_strlit("b6");
    assert(lowered("B6"@) =~= "b6"@);
    reveal_strlit("B7");
    reveal_strlit("b7");
    assert(lowered("B7"@) =~= "b7"@);
    reveal_strlit("B8");
    reveal_strlit("b8");
    assert(lowered("B8"@) =~= "b8"@);
    reveal_strlit("B9");
    reveal_strlit("b9");
    assert(lowered("B9"@) =~= "b9"@);
    reveal_strlit("B10");
    reveal_strlit("b10");
    assert(lowered("B10"@) =~= "b10"@);
    reveal_strlit("C5E");
    reveal_strlit("c5e");
    assert(lowered("C5E"@) =~= "c5e"@);
    reveal_strlit("Comm10E");
    reveal_strlit("comm10e");
    assert(lowered("Comm10E"@) =~= "comm10e"@);
    reveal_strlit("DLE");
    reveal_strlit("dle");
    assert(lowered("DLE"@) =~= "dle"@);
}

#[verifier::spinoff_prover]
proof fn lemma_listed_d()
    ensures
        lowered(paper_names()[24]@) == "executive"@,
        lowered(paper_names()[25]@) == "folio"@,
        lowered(paper_names()[26]@) == "ledger"@,
        lowered(paper_names()[27]@) == "legal"@,
        lowered(paper_names()[28]@) == "letter"@,
        lowered(paper_names()[29]@) == "tabloid"@,
{
    reveal_strlit("Executive");
    reveal_strlit("executive");
    assert(lowered("Executive"@) =~= "executive"@);
    reveal_strlit("Folio");
    reveal_strlit("folio");
    assert(lowered("Folio"@) =~= "folio"@);
    reveal_strlit("Ledger");
    reveal_strlit("ledger");
    assert(lowered("Ledger"@) =~= "ledger"@);
    reveal_strlit("Legal");
    reveal_strlit("legal");
    assert(lowered("Legal"@) =~= "legal"@);
    reveal_strlit("Letter");
    reveal_strlit("letter");
    assert(lowered("Letter"@) =~= "letter"@);
    reveal_strlit("Tabloid");
    reveal_strlit("tabloid");
    assert(lowered("Tabloid"@) =~= "tabloid"@);
}

proof fn lemma_papers_are_listed(name: Seq<char>)
    requires
        paper_of(name) is Some,
    ensures
        exists|i: int|
            0 <= i < paper_names().len() && #[trigger] lowered(paper_names()[i]@) == lowered(name),
{
    assert(paper_names().len() == 30);
    lemma_listed_a();
    lemma_listed_b();
    lemma_listed_c();
    lemma_listed_d();
}

/// The choices that an option names, whatever the case they are written in; no other
/// word names one.
pub proof fn law_choices_by_their_names(name: Seq<char>)
    ensures
        lowered(name) == "none"@ <==> log_level_of(name) == Some(LogLevel::Quiet),
        lowered(name) == "error"@ <==> log_level_of(name) == Some(LogLevel::Error),
        lowered(name) == "warn"@ <==> log_level_of(name) == Some(LogLevel::Warn),
        lowered(name) == "info"@ <==> log_level_of(name) == Some(LogLevel::Info),
        lowered(name) == "portrait"@ <==> orientation_of(name) == Some(Orientation::Portrait),
        lowered(name) == "landscape"@ <==> orientation_of(name) == Some(Orientation::Landscape),
        lowered(name) == "abort"@ <==> handling_of(name) == Some(LoadErrorHandling::Abort),
        lowered(name) == "skip"@ <==> handling_of(name) == Some(LoadErrorHandling::Skip),
        lowered(name) == "ignore"@ <==> handling_of(name) == Some(LoadErrorHandling::Ignore),
{
    lemma_choice_marks();
}

/// A number with a unit behind it is a length in that unit, whatever the case the unit
/// is written in and whatever white space stands before it.
pub proof fn law_a_length_has_its_unit(amount: Seq<char>, gap: Seq<char>, word: Seq<char>)
    requires
        is_finite_real(amount),
        forall|i: int| 0 <= i < gap.len() ==> is_space(#[trigger] gap[i]),
        word.len() == 2,
    ensures
        lowered(word) == "mm"@ ==> length_of(amount + gap + word) == Some(
            LengthView { amount, unit: Unit::Mm },
        ),
        lowered(word) == "cm"@ ==> length_of(amount + gap + word) == Some(
            LengthView { amount, unit: Unit::Cm },
        ),
        lowered(word) == "in"@ ==> length_of(amount + gap + word) == Some(
            LengthView { amount, unit: Unit::In },
        ),
        lowered(word) == "pt"@ ==> length_of(amount + gap + word) == Some(
            LengthView { amount, unit: Unit::Pt },
        ),
        lowered(word) == "px"@ ==> length_of(amount + gap + word) == Some(
            LengthView { amount, unit: Unit::Px },
        ),
{
    reveal_strlit("mm");
    reveal_strlit("cm");
    reveal_strlit("in");
    reveal_strlit("pt");
    reveal_strlit("px");
    lemma_a_number_ends(amount);
    law_nothing_else_spells_a_real_number(amount);
    let all = amount + gap + word;
    let none = Seq::<char>::empty();
    if lowered(word) == "mm"@ || lowered(word) == "cm"@ || lowered(word) == "in"@ || lowered(word)
        == "pt"@ || lowered(word) == "px"@ {
        assert(lowered(word)[1] == small(word[1]));
        assert("mm"@[1] == 'm' && "cm"@[1] == 'm' && "in"@[1] == 'n' && "pt"@[1] == 't'
            && "px"@[1] == 'x');
        assert("mm"@[0] == 'm' && "cm"@[0] == 'c' && "in"@[0] == 'i' && "pt"@[0] == 'p'
            && "px"@[0] == 'p');
        assert(all.last() == word[1]);
        assert(all[0] == amount[0]);
        assert(is_digit(amount[0]) || amount[0] == '.' || amount[0] == '+' || amount[0] == '-'
            || amount[0] == 'e' || amount[0] == 'E');
        law_white_space_is_dropped(none, all, none);
        assert(none + all + none =~= all);
        assert(all.skip(all.len() - 2) =~= word);
        assert(all.take(all.len() - 2) =~= amount + gap);
        law_white_space_is_dropped(none, amount, gap);
    }
}

/// A band draws something where it has a cell, a document or a line, whatever else is
/// said of its look.
pub proof fn law_a_band_draws_what_it_has(band: BandView)
    ensures
        band.left is Some || band.center is Some || band.right is Some || band.html is Some
            || band.line <==> !band_is_empty(band),
{
}

/// An outline is wanted where it is enabled or dumped.
pub proof fn law_when_an_outline_is_wanted(outline: OutlineSettingsView)
    ensures
        outline.enabled ==> outline_is_wanted(outline),
        outline.dump is Some ==> outline_is_wanted(outline),
        !outline.enabled && outline.dump is None ==> !outline_is_wanted(outline),
{
}

/// A real number is read without the white space round it: a finite one, or infinity or no
/// number by their names, whatever their case and behind a sign or not; and nothing else.
pub proof fn law_how_a_real_number_is_read(
    before: Seq<char>,
    text: Seq<char>,
    after: Seq<char>,
    sign: char,
)
    requires
        forall|i: int| 0 <= i < before.len() ==> is_space(#[trigger] before[i]),
        forall|i: int| 0 <= i < after.len() ==> is_space(#[trigger] after[i]),
        text.len() > 0,
        !is_space(text[0]),
        !is_space(text.last()),
        sign == '+' || sign == '-',
    ensures
        is_finite_real(text) ==> real_of(before + text + after) == Some(text),
        lowered(text) == "inf"@ || lowered(text) == "infinity"@ || lowered(text) == "nan"@
            ==> real_of(before + text + after) == Some(text) && real_of(seq![sign] + text) == Some(
            seq![sign] + text,
        ),
        !is_finite_real(text) && text[0] != '+' && text[0] != '-' && lowered(text) != "inf"@
            && lowered(text) != "infinity"@ && lowered(text) != "nan"@ ==> real_of(
            before + text + after,
        ) is None,
{
    reveal_strlit("inf");
    reveal_strlit("infinity");
    reveal_strlit("nan");
    law_white_space_is_dropped(before, text, after);
    let signed = seq![sign] + text;
    let none = Seq::<char>::empty();
    assert(signed[0] == sign);
    assert(signed.last() == text.last());
    assert(signed.skip(1) =~= text);
    law_white_space_is_dropped(none, signed, none);
    assert(none + signed + none =~= signed);
    assert(lowered(text)[0] == small(text[0]));
    assert("inf"@[0] == 'i' && "infinity"@[0] == 'i' && "nan"@[0] == 'n');
}

} // verus!
