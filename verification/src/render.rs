//! Loading a document and waiting until it has settled.

use crate::encoding::{js_string, script_string};
use crate::error::Error;
use crate::json::{holds_at, json_holds, json_number_at, json_string_at, number_at, text_at};
use crate::message::{Event, EventView};
use crate::network::{chromium_error, error_name, status_error, NetworkError};
use crate::plan::{Injection, InjectionView, LoadPlan, LoadPlanView, Settle, SettleView};
use crate::text::{begins, contains_text, finishes, maybe, same, texts};
use vstd::prelude::*;

verus! {

/// How long the network has to be quiet, in milliseconds.
pub const QUIET_PERIOD: u64 = 500;

/// How often a page is asked for its status, in milliseconds.
pub const STATUS_POLL: u64 = 50;

/// The script that measures a band document: its height and its lower edge.
pub const MEASURE_SCRIPT: &'static str = "(() => { const body = document.body; if (!body) { return [0, 0]; } const box = body.getBoundingClientRect(); return [box.height, box.bottom]; })()";

/// The script that waits for the fonts of a document.
pub const FONTS_SCRIPT: &'static str = "document.fonts ? document.fonts.ready.then(() => true) : true";

/// The script that asks a page for its status.
pub const STATUS_SCRIPT: &'static str = "String(window.status)";

/// Where the loading of a document has got to.
#[derive(Clone, Copy, Debug, PartialEq, Eq)]
pub enum Stage {
    Navigating,
    AwaitingLoad,
    Injecting,
    AwaitingNetworkIdle,
    AwaitingFonts,
    AwaitingWindowStatus,
    Delaying,
    RunningScripts,
    Settled,
}

/// What goes on in a stage.
pub open spec fn stage_text(stage: Stage) -> &'static str {
    match stage {
        Stage::Navigating => "opening the document",
        Stage::AwaitingLoad => "waiting for the page to load",
        Stage::Injecting => "putting the user stylesheet into the document",
        Stage::AwaitingNetworkIdle => "waiting for the network to go idle",
        Stage::AwaitingFonts => "waiting for web fonts",
        Stage::AwaitingWindowStatus => "waiting for window.status",
        Stage::Delaying => "waiting out the JavaScript delay",
        Stage::RunningScripts => "running --run-script",
        Stage::Settled => "finishing",
    }
}

impl Stage {
    /// What goes on in the stage.
    pub fn describe(self) -> (text: &'static str)
        ensures
            text == stage_text(self),
    {
        match self {
            Stage::Navigating => "opening the document",
            Stage::AwaitingLoad => "waiting for the page to load",
            Stage::Injecting => "putting the user stylesheet into the document",
            Stage::AwaitingNetworkIdle => "waiting for the network to go idle",
            Stage::AwaitingFonts => "waiting for web fonts",
            Stage::AwaitingWindowStatus => "waiting for window.status",
            Stage::Delaying => "waiting out the JavaScript delay",
            Stage::RunningScripts => "running --run-script",
            Stage::Settled => "finishing",
        }
    }
}

impl Default for Stage {
    fn default() -> (stage: Stage)
        ensures
            stage == Stage::Navigating,
    {
        Stage::Navigating
    }
}

/// The stage behind another one. Stages with nothing to do are left out.
pub open spec fn stage_after(stage: Stage, plan: LoadPlanView) -> Stage {
    match stage {
        Stage::Navigating => Stage::AwaitingLoad,
        Stage::AwaitingLoad => if plan.inject is Some {
            Stage::Injecting
        } else {
            Stage::AwaitingNetworkIdle
        },
        Stage::Injecting => Stage::AwaitingNetworkIdle,
        Stage::AwaitingNetworkIdle => Stage::AwaitingFonts,
        Stage::AwaitingFonts => match plan.settle {
            SettleView::WindowStatus(_) => Stage::AwaitingWindowStatus,
            SettleView::Delay(_) => Stage::Delaying,
        },
        Stage::AwaitingWindowStatus | Stage::Delaying => if plan.scripts.len() > 0 {
            Stage::RunningScripts
        } else {
            Stage::Settled
        },
        Stage::RunningScripts => Stage::Settled,
        Stage::Settled => Stage::Settled,
    }
}

/// The stage behind another one.
pub fn next_stage(stage: Stage, plan: &LoadPlan) -> (next: Stage)
    ensures
        next == stage_after(stage, plan@),
{
    match stage {
        Stage::Navigating => Stage::AwaitingLoad,
        Stage::AwaitingLoad => match &plan.inject {
            Some(_) => Stage::Injecting,
            None => Stage::AwaitingNetworkIdle,
        },
        Stage::Injecting => Stage::AwaitingNetworkIdle,
        Stage::AwaitingNetworkIdle => Stage::AwaitingFonts,
        Stage::AwaitingFonts => match &plan.settle {
            Settle::WindowStatus(_) => Stage::AwaitingWindowStatus,
            Settle::Delay(_) => Stage::Delaying,
        },
        Stage::AwaitingWindowStatus | Stage::Delaying => if plan.scripts.len() > 0 {
            Stage::RunningScripts
        } else {
            Stage::Settled
        },
        Stage::RunningScripts => Stage::Settled,
        Stage::Settled => Stage::Settled,
    }
}

/// How far along a stage is.
pub open spec fn rank(stage: Stage) -> int {
    match stage {
        Stage::Navigating => 0,
        Stage::AwaitingLoad => 1,
        Stage::Injecting => 2,
        Stage::AwaitingNetworkIdle => 3,
        Stage::AwaitingFonts => 4,
        Stage::AwaitingWindowStatus => 5,
        Stage::Delaying => 5,
        Stage::RunningScripts => 6,
        Stage::Settled => 7,
    }
}

/// Loading only ever goes forward, and ends where a document has settled. The
/// scripts run last.
pub proof fn law_loading_goes_forward(stage: Stage, plan: LoadPlanView)
    ensures
        stage != Stage::Settled ==> rank(stage_after(stage, plan)) > rank(stage),
        stage_after(Stage::Settled, plan) == Stage::Settled,
        stage_after(Stage::RunningScripts, plan) == Stage::Settled,
        plan.scripts.len() > 0 && rank(stage) < 6 ==> stage_after(stage, plan) != Stage::Settled,
{
}

/// Where a conversion has got to.
#[derive(Debug, PartialEq, Eq)]
pub struct Progress {
    stage: Stage,
}

impl Progress {
    /// The stage that is current.
    pub closed spec fn at(&self) -> Stage {
        self.stage
    }

    /// The very beginning.
    pub fn new() -> (progress: Progress)
        ensures
            progress.at() == Stage::Navigating,
    {
        Progress { stage: Stage::default() }
    }

    /// The stage that is current.
    pub fn current(&self) -> (stage: Stage)
        ensures
            stage == self.at(),
    {
        self.stage
    }

    /// Go to a stage.
    pub fn enter(&mut self, stage: Stage)
        ensures
            final(self).at() == stage,
    {
        self.stage = stage;
    }

    /// Go to a stage, from outside of a conversion.
    pub fn enter_for_test(&mut self, stage: Stage)
        ensures
            final(self).at() == stage,
    {
        self.enter(stage);
    }

    /// That time ran out, after so many milliseconds. It names what was going
    /// on.
    pub fn expired(&self, after: u64) -> (error: Error)
        ensures
            error == (Error::Timeout { after, stage: stage_text(self.at()) }),
    {
        Error::Timeout { after, stage: self.stage.describe() }
    }
}

/// A request that failed.
#[derive(Debug, PartialEq, Eq)]
pub struct Failed {
    pub url: String,
    pub error: NetworkError,
    /// The status that the server answered with, or nothing where it did not.
    pub http_status: u16,
}

/// A [`Failed`] by the characters it holds.
pub struct FailedView {
    pub url: Seq<char>,
    pub error: NetworkError,
    pub http_status: u16,
}

impl View for Failed {
    type V = FailedView;

    open spec fn view(&self) -> FailedView {
        FailedView { url: self.url@, error: self.error, http_status: self.http_status }
    }
}

impl Clone for Failed {
    fn clone(&self) -> (copy: Failed)
        ensures
            copy@ == self@,
    {
        Failed { url: self.url.clone(), error: self.error, http_status: self.http_status }
    }
}

/// The failures of a list, by the characters they hold.
pub open spec fn failures_of(list: Seq<Failed>) -> Seq<FailedView> {
    list.map_values(|failed: Failed| failed@)
}

/// A failure that may be absent.
pub open spec fn maybe_failed(failed: Option<Failed>) -> Option<FailedView> {
    match failed {
        Some(failed) => Some(failed@),
        None => None,
    }
}

/// A failure as it is shown.
pub open spec fn failed_text(failed: FailedView) -> Seq<char> {
    failed.url + " ("@ + error_name(failed.error)@ + ")"@
}

impl Failed {
    /// The failure as it is shown.
    pub fn message(&self) -> (text: String)
        ensures
            text@ == failed_text(self@),
    {
        let mut text = self.url.clone();
        text.push_str(" (");
        text.push_str(self.error.name());
        text.push_str(")");
        text
    }
}

/// What went wrong while a document was loaded.
#[derive(Debug, PartialEq, Eq)]
pub struct LoadReport {
    /// The failure of the document itself.
    pub document: Option<Failed>,
    /// Whether the browser could not even go there.
    pub navigation_failed: bool,
    /// The failures of what the document refers to, once for each URL and in
    /// the order they were asked for.
    pub media: Vec<Failed>,
}

/// A [`LoadReport`] by the characters it holds.
pub struct LoadReportView {
    pub document: Option<FailedView>,
    pub navigation_failed: bool,
    pub media: Seq<FailedView>,
}

impl View for LoadReport {
    type V = LoadReportView;

    open spec fn view(&self) -> LoadReportView {
        LoadReportView {
            document: maybe_failed(self.document),
            navigation_failed: self.navigation_failed,
            media: failures_of(self.media@),
        }
    }
}

/// That nothing went wrong.
pub open spec fn clean_report() -> LoadReportView {
    LoadReportView { document: None, navigation_failed: false, media: Seq::empty() }
}

impl Default for LoadReport {
    fn default() -> (report: LoadReport)
        ensures
            report@ == clean_report(),
    {
        let report = LoadReport { document: None, navigation_failed: false, media: Vec::new() };
        assert(failures_of(report.media@) =~= Seq::empty());
        report
    }
}

/// What the answer to a navigation says: that the browser could not go there,
/// or nothing.
pub open spec fn refused_navigation(url: Seq<char>, answer: Seq<char>) -> Option<LoadReportView> {
    match json_string_at(answer, "/errorText"@) {
        Some(reason) => Some(failed_navigation(url, reason)),
        None => None,
    }
}

/// The report of a browser that could not go somewhere.
pub open spec fn failed_navigation(url: Seq<char>, reason: Seq<char>) -> LoadReportView {
    LoadReportView {
        document: Some(FailedView { url, error: chromium_error(reason), http_status: 0 }),
        navigation_failed: true,
        media: Seq::empty(),
    }
}

/// The report of a browser that could not go somewhere.
pub fn navigation_failure(url: &str, reason: &str) -> (report: LoadReport)
    ensures
        report@ == failed_navigation(url@, reason@),
{
    let report = LoadReport {
        document: Some(
            Failed {
                url: url.to_owned(),
                error: NetworkError::from_chromium(reason),
                http_status: 0,
            },
        ),
        navigation_failed: true,
        media: Vec::new(),
    };
    assert(failures_of(report.media@) =~= Seq::empty());
    report
}

/// Read the answer to a navigation.
pub fn navigated(url: &str, answer: &str) -> (refused: Option<LoadReport>)
    ensures
        match refused {
            Some(report) => refused_navigation(url@, answer@) == Some(report@),
            None => refused_navigation(url@, answer@) is None,
        },
{
    match text_at(answer, "/errorText") {
        Some(reason) => Some(navigation_failure(url, &reason)),
        None => None,
    }
}

/// The requests that are under way, each once.
#[derive(Debug, PartialEq, Eq)]
pub struct InFlight {
    ids: Vec<String>,
}

impl View for InFlight {
    type V = Set<Seq<char>>;

    closed spec fn view(&self) -> Set<Seq<char>> {
        texts(self.ids@).to_set()
    }
}

impl InFlight {
    #[verifier::type_invariant]
    spec fn each_once(self) -> bool {
        texts(self.ids@).no_duplicates()
    }

    /// Nothing under way.
    pub fn new() -> (requests: InFlight)
        ensures
            requests@ == Set::<Seq<char>>::empty(),
    {
        let ids: Vec<String> = Vec::new();
        assert(texts(ids@) =~= Seq::empty());
        let requests = InFlight { ids };
        assert(requests@ =~= Set::empty());
        requests
    }

    /// How many requests are under way.
    pub fn len(&self) -> (count: usize)
        ensures
            count == self@.len(),
            self@.finite(),
    {
        proof {
            use_type_invariant(self);
            texts(self.ids@).unique_seq_to_set();
        }
        self.ids.len()
    }

    /// Whether nothing is under way.
    pub fn is_empty(&self) -> (yes: bool)
        ensures
            yes == (self@ == Set::<Seq<char>>::empty()),
    {
        let yes = self.ids.len() == 0;
        proof {
            if yes {
                assert(self@ =~= Set::empty());
            } else {
                assert(texts(self.ids@).contains(texts(self.ids@)[0]));
                assert(self@.contains(texts(self.ids@)[0]));
            }
        }
        yes
    }

    /// A request began.
    pub fn insert(&mut self, id: &str)
        ensures
            final(self)@ == old(self)@.insert(id@),
    {
        proof {
            use_type_invariant(&*self);
        }
        let ghost before = texts(self.ids@);
        if contains_text(&self.ids, id) {
            assert(self@ =~= old(self)@.insert(id@));
            return ;
        }
        let mut ids: Vec<String> = Vec::new();
        assert(texts(ids@) =~= Seq::empty());
        std::mem::swap(&mut ids, &mut self.ids);
        ids.push(id.to_owned());
        assert(texts(ids@) =~= before.push(id@));
        assert forall|wanted: Seq<char>|
            before.push(id@).contains(wanted) == (before.contains(wanted) || wanted == id@) by {
            if before.contains(wanted) {
                let i = choose|i: int| 0 <= i < before.len() && before[i] == wanted;
                assert(before.push(id@)[i] == wanted);
            }
            if wanted == id@ {
                assert(before.push(id@)[before.len() as int] == wanted);
            }
        }
        self.ids = ids;
        assert(self@ =~= old(self)@.insert(id@));
    }

    /// A request ended.
    pub fn remove(&mut self, id: &str)
        ensures
            final(self)@ == old(self)@.remove(id@),
    {
        proof {
            use_type_invariant(&*self);
        }
        let ghost all = texts(self.ids@);
        let mut kept: Vec<String> = Vec::new();
        let size: usize = self.ids.len();
        let mut at: usize = 0;
        while at < size
            invariant
                at <= size == self.ids@.len(),
                all == texts(self.ids@),
                all.no_duplicates(),
                self@ == old(self)@,
                texts(kept@).no_duplicates(),
                forall|i: int|
                    0 <= i < at && #[trigger] all[i] != id@ ==> texts(kept@).contains(all[i]),
                forall|j: int|
                    0 <= j < kept@.len() ==> #[trigger] texts(kept@)[j] != id@ && all.take(
                        at as int,
                    ).contains(texts(kept@)[j]),
            decreases size - at,
        {
            let ghost before = texts(kept@);
            let ghost earlier = all.take(at as int);
            assert(all[at as int] == self.ids@[at as int]@);
            assert(all.take(at + 1) =~= earlier.push(all[at as int]));
            assert forall|wanted: Seq<char>| earlier.contains(wanted) implies all.take(
                at + 1,
            ).contains(wanted) by {
                let i = choose|i: int| 0 <= i < earlier.len() && earlier[i] == wanted;
                assert(all.take(at + 1)[i] == wanted);
            }
            if !same(&self.ids[at], id) {
                kept.push(self.ids[at].clone());
                assert(texts(kept@) =~= before.push(all[at as int]));
                assert(!before.contains(all[at as int])) by {
                    if before.contains(all[at as int]) {
                        let j = choose|j: int|
                            0 <= j < before.len() && before[j] == all[at as int];
                        assert(earlier.contains(before[j]));
                        let i = choose|i: int| 0 <= i < earlier.len() && earlier[i] == before[j];
                        assert(all[i] == all[at as int]);
                    }
                }
                assert(all.take(at + 1)[at as int] == all[at as int]);
                assert forall|i: int| 0 <= i < at + 1 && #[trigger] all[i] != id@ implies texts(
                    kept@,
                ).contains(all[i]) by {
                    if i < at {
                        let j = choose|j: int| 0 <= j < before.len() && before[j] == all[i];
                        assert(texts(kept@)[j] == all[i]);
                    } else {
                        assert(texts(kept@)[before.len() as int] == all[i]);
                    }
                }
            }
            at = at + 1;
        }
        assert(all.take(at as int) =~= all);
        self.ids = kept;
        assert(self@ =~= old(self)@.remove(id@)) by {
            let left = texts(self.ids@);
            assert forall|wanted: Seq<char>| left.contains(wanted) == (all.contains(wanted)
                && wanted != id@) by {
                if left.contains(wanted) {
                    let j = choose|j: int| 0 <= j < left.len() && left[j] == wanted;
                    assert(left[j] != id@ && all.contains(left[j]));
                }
                if all.contains(wanted) && wanted != id@ {
                    let i = choose|i: int| 0 <= i < all.len() && all[i] == wanted;
                    assert(left.contains(all[i]));
                }
            }
        }
    }
}

/// What has been seen of the requests of a document.
#[derive(Debug, PartialEq, Eq)]
pub struct Watch {
    /// The request for the document itself.
    pub document: Option<String>,
    /// The requests that were made and their URLs, in the order of the requests.
    requests: Vec<(String, String)>,
    pub report: LoadReport,
}

/// A [`Watch`] by what it holds.
pub struct WatchView {
    pub document: Option<Seq<char>>,
    pub requests: Seq<(Seq<char>, Seq<char>)>,
    pub report: LoadReportView,
}

/// Requests by the characters they hold.
pub open spec fn requests_of(list: Seq<(String, String)>) -> Seq<(Seq<char>, Seq<char>)> {
    Seq::new(list.len(), |i: int| (list[i].0@, list[i].1@))
}

impl View for Watch {
    type V = WatchView;

    closed spec fn view(&self) -> WatchView {
        WatchView {
            document: maybe(self.document),
            requests: requests_of(self.requests@),
            report: self.report@,
        }
    }
}

/// The URL of a request, where it was made. The last one counts.
pub open spec fn url_of_request(
    requests: Seq<(Seq<char>, Seq<char>)>,
    id: Seq<char>,
) -> Seq<char>
    decreases requests.len(),
{
    if requests.len() == 0 {
        Seq::empty()
    } else if requests.last().0 == id {
        requests.last().1
    } else {
        url_of_request(requests.drop_last(), id)
    }
}

/// Where a URL was first asked for among requests: behind the last one where it
/// never was.
pub open spec fn asked_at(requests: Seq<(Seq<char>, Seq<char>)>, url: Seq<char>) -> nat
    decreases requests.len(),
{
    if requests.len() == 0 || requests[0].1 == url {
        0
    } else {
        1 + asked_at(requests.skip(1), url)
    }
}

/// Failures with one more, behind those whose URLs were asked for no later.
pub open spec fn placed(
    requests: Seq<(Seq<char>, Seq<char>)>,
    media: Seq<FailedView>,
    failed: FailedView,
) -> Seq<FailedView>
    decreases media.len(),
{
    if media.len() == 0 || asked_at(requests, media.last().url) <= asked_at(requests, failed.url) {
        media.push(failed)
    } else {
        placed(requests, media.drop_last(), failed).push(media.last())
    }
}

/// Whether a URL is among failures.
pub open spec fn has_failed(media: Seq<FailedView>, url: Seq<char>) -> bool {
    exists|i: int| 0 <= i < media.len() && (#[trigger] media[i]).url == url
}

/// A report with one failure more. The first failure of the document counts. An
/// icon that the browser asked for itself does not, nor does a URL that failed
/// before.
pub open spec fn reported(
    watch: WatchView,
    id: Seq<char>,
    error: NetworkError,
    http_status: u16,
) -> LoadReportView {
    let report = watch.report;
    let url = url_of_request(watch.requests, id);
    let failed = FailedView { url, error, http_status };
    if watch.document == Some(id) {
        LoadReportView {
            document: match report.document {
                Some(earlier) => Some(earlier),
                None => Some(failed),
            },
            ..report
        }
    } else if "/favicon.ico"@.is_suffix_of(url) || has_failed(report.media, url) {
        report
    } else {
        LoadReportView { media: placed(watch.requests, report.media, failed), ..report }
    }
}

fn failed_before(media: &Vec<Failed>, url: &str) -> (yes: bool)
    ensures
        yes == has_failed(failures_of(media@), url@),
{
    let ghost all = failures_of(media@);
    let mut at: usize = 0;
    while at < media.len()
        invariant
            at <= media@.len(),
            all == failures_of(media@),
            forall|i: int| 0 <= i < at ==> (#[trigger] all[i]).url != url@,
        decreases media@.len() - at,
    {
        assert(all[at as int] == media@[at as int]@);
        if same(&media[at].url, url) {
            return true;
        }
        at = at + 1;
    }
    false
}

impl Watch {
    /// Nothing seen.
    pub fn new() -> (watch: Watch)
        ensures
            watch@ == (WatchView {
                document: None,
                requests: Seq::empty(),
                report: clean_report(),
            }),
    {
        let watch = Watch {
            document: None,
            requests: Vec::new(),
            report: LoadReport::default(),
        };
        assert(requests_of(watch.requests@) =~= Seq::empty());
        watch
    }

    /// The request for the document itself.
    pub fn document(&self) -> (id: Option<&str>)
        ensures
            match id {
                Some(id) => self@.document == Some(id@),
                None => self@.document is None,
            },
    {
        match &self.document {
            Some(id) => Some(id.as_str()),
            None => None,
        }
    }

    /// The report so far.
    pub fn report(&self) -> (report: &LoadReport)
        ensures
            report@ == self@.report,
    {
        &self.report
    }

    /// The URL of a request, where it was made.
    fn url(&self, id: &str) -> (url: String)
        ensures
            url@ == url_of_request(self@.requests, id@),
    {
        let ghost all = requests_of(self.requests@);
        let mut at: usize = self.requests.len();
        assert(all.take(at as int) =~= all);
        while at > 0
            invariant
                at <= self.requests@.len(),
                all == requests_of(self.requests@),
                url_of_request(all, id@) == url_of_request(all.take(at as int), id@),
            decreases at,
        {
            assert(all.take(at as int).drop_last() =~= all.take(at - 1));
            assert(all.take(at as int).last() == all[at - 1]);
            at = at - 1;
            if same(&self.requests[at].0, id) {
                return self.requests[at].1.clone();
            }
        }
        String::new()
    }

    /// Where a URL was first asked for.
    fn asked(&self, url: &str) -> (at: usize)
        ensures
            at == asked_at(self@.requests, url@),
    {
        let ghost all = requests_of(self.requests@);
        let size: usize = self.requests.len();
        let mut at: usize = 0;
        assert(all.skip(0) =~= all);
        while at < size
            invariant
                at <= size == self.requests@.len(),
                all == requests_of(self.requests@),
                asked_at(all, url@) == at + asked_at(all.skip(at as int), url@),
            decreases size - at,
        {
            assert(all.skip(at as int)[0] == all[at as int]);
            assert(all.skip(at as int).skip(1) =~= all.skip(at + 1));
            if same(&self.requests[at].1, url) {
                return at;
            }
            at = at + 1;
        }
        at
    }

    /// How many failures stand before a new one.
    fn place(&self, url: &str) -> (at: usize)
        ensures
            at <= self@.report.media.len(),
            forall|failed: FailedView| failed.url == url@ ==> #[trigger] placed(
                self@.requests,
                self@.report.media,
                failed,
            ) == self@.report.media.insert(at as int, failed),
    {
        let ghost requests = self@.requests;
        let ghost media = self@.report.media;
        let own: usize = self.asked(url);
        let mut at: usize = self.report.media.len();
        assert(media.take(at as int) =~= media);
        assert forall|failed: FailedView| failed.url == url@ implies #[trigger] placed(
            requests,
            media,
            failed,
        ) == placed(requests, media.take(at as int), failed) + media.skip(at as int) by {
            assert(placed(requests, media, failed) + media.skip(at as int) =~= placed(
                requests,
                media,
                failed,
            ));
        }
        while at > 0 && self.asked(&self.report.media[at - 1].url) > own
            invariant
                requests == self@.requests,
                media == self@.report.media,
                own == asked_at(requests, url@),
                at <= media.len() == self.report.media@.len(),
                forall|failed: FailedView| failed.url == url@ ==> #[trigger] placed(
                    requests,
                    media,
                    failed,
                ) == placed(requests, media.take(at as int), failed) + media.skip(at as int),
            decreases at,
        {
            let ghost from = at as int;
            at = at - 1;
            assert forall|failed: FailedView| failed.url == url@ implies #[trigger] placed(
                requests,
                media,
                failed,
            ) == placed(requests, media.take(at as int), failed) + media.skip(at as int) by {
                assert(media.take(from).drop_last() =~= media.take(at as int));
                assert(media.take(from).last() == media[at as int]);
                assert(placed(requests, media.take(at as int), failed).push(media[at as int])
                    + media.skip(from) =~= placed(requests, media.take(at as int), failed)
                    + media.skip(at as int));
            }
        }
        assert forall|failed: FailedView| failed.url == url@ implies #[trigger] placed(
            requests,
            media,
            failed,
        ) == media.insert(at as int, failed) by {
            assert(media.take(at as int).push(failed) + media.skip(at as int) =~= media.insert(
                at as int,
                failed,
            ));
        }
        at
    }

    /// Put a failure on record.
    pub fn record(&mut self, id: &str, error: NetworkError, http_status: u16)
        ensures
            final(self)@ == (WatchView {
                report: reported(old(self)@, id@, error, http_status),
                ..old(self)@
            }),
    {
        let url = self.url(id);
        let is_document = match &self.document {
            Some(own) => same(own, id),
            None => false,
        };
        if is_document {
            if self.report.document.is_none() {
                self.report.document = Some(Failed { url, error, http_status });
            }
            return ;
        }
        if finishes(&url, "/favicon.ico") {
            return ;
        }
        if failed_before(&self.report.media, &url) {
            return ;
        }
        let ghost before = failures_of(self.report.media@);
        let ghost added = FailedView { url: url@, error, http_status };
        let at: usize = self.place(&url);
        self.report.media.insert(at, Failed { url, error, http_status });
        assert(failures_of(self.report.media@) =~= before.insert(at as int, added));
    }

    /// Note the request for the document, where none was noted before.
    fn note_document(&mut self, id: &str)
        ensures
            final(self)@ == (WatchView {
                document: match old(self)@.document {
                    Some(own) => Some(own),
                    None => Some(id@),
                },
                ..old(self)@
            }),
    {
        if self.document.is_none() {
            self.document = Some(id.to_owned());
        }
    }

    /// Note the URL of a request.
    fn note_url(&mut self, id: &str, url: &str)
        ensures
            final(self)@ == (WatchView {
                requests: old(self)@.requests.push((id@, url@)),
                ..old(self)@
            }),
    {
        let ghost before = self@.requests;
        self.requests.push((id.to_owned(), url.to_owned()));
        assert(self@.requests =~= before.push((id@, url@)));
    }
}

/// What an event says about the traffic of a document.
pub enum TrafficView {
    /// Nothing.
    Nothing,
    Sent { id: Seq<char>, document: bool, url: Seq<char> },
    Received { id: Seq<char>, status: u16 },
    Finished { id: Seq<char> },
    Broken { id: Seq<char>, reason: Seq<char> },
}

/// What an event says about the traffic of a document.
#[derive(Debug, PartialEq, Eq)]
pub enum Traffic {
    /// Nothing.
    Nothing,
    Sent { id: String, document: bool, url: String },
    Received { id: String, status: u16 },
    Finished { id: String },
    Broken { id: String, reason: String },
}

impl View for Traffic {
    type V = TrafficView;

    open spec fn view(&self) -> TrafficView {
        match *self {
            Traffic::Nothing => TrafficView::Nothing,
            Traffic::Sent { id, document, url } => TrafficView::Sent { id: id@, document, url: url@ },
            Traffic::Received { id, status } => TrafficView::Received { id: id@, status },
            Traffic::Finished { id } => TrafficView::Finished { id: id@ },
            Traffic::Broken { id, reason } => TrafficView::Broken { id: id@, reason: reason@ },
        }
    }
}

/// The status of a response. A larger number is cut to what a status holds, and
/// a response without one counts as a good one.
pub open spec fn status_of(params: Seq<char>) -> u16 {
    match json_number_at(params, "/response/status"@) {
        Some(status) => (status % 65536) as u16,
        None => 200,
    }
}

/// A text in the parameters of an event, or an empty one.
pub open spec fn text_in(params: Seq<char>, pointer: Seq<char>) -> Seq<char> {
    match json_string_at(params, pointer) {
        Some(text) => text,
        None => Seq::empty(),
    }
}

/// What an event says about the traffic of a document.
pub open spec fn traffic_of(event: EventView) -> TrafficView {
    let params = event.params;
    match json_string_at(params, "/requestId"@) {
        None => TrafficView::Nothing,
        Some(id) => if event.method == "Network.requestWillBeSent"@ {
            TrafficView::Sent {
                id,
                document: json_string_at(params, "/type"@) == Some("Document"@),
                url: text_in(params, "/request/url"@),
            }
        } else if event.method == "Network.responseReceived"@ {
            TrafficView::Received { id, status: status_of(params) }
        } else if event.method == "Network.loadingFinished"@ {
            TrafficView::Finished { id }
        } else if event.method == "Network.loadingFailed"@ {
            TrafficView::Broken { id, reason: text_in(params, "/errorText"@) }
        } else {
            TrafficView::Nothing
        },
    }
}

fn text_or_empty(json: &str, pointer: &str) -> (text: String)
    ensures
        text@ == text_in(json@, pointer@),
{
    match text_at(json, pointer) {
        Some(text) => text,
        None => String::new(),
    }
}

/// Read what an event says about the traffic of a document.
pub fn traffic(event: &Event) -> (traffic: Traffic)
    ensures
        traffic@ == traffic_of(event@),
{
    let id = match text_at(&event.params, "/requestId") {
        Some(id) => id,
        None => {
            return Traffic::Nothing;
        },
    };
    if same(&event.method, "Network.requestWillBeSent") {
        let document = match text_at(&event.params, "/type") {
            Some(kind) => same(&kind, "Document"),
            None => false,
        };
        Traffic::Sent { id, document, url: text_or_empty(&event.params, "/request/url") }
    } else if same(&event.method, "Network.responseReceived") {
        let status: u16 = match number_at(&event.params, "/response/status") {
            Some(status) => (status % 65536) as u16,
            None => 200,
        };
        Traffic::Received { id, status }
    } else if same(&event.method, "Network.loadingFinished") {
        Traffic::Finished { id }
    } else if same(&event.method, "Network.loadingFailed") {
        Traffic::Broken { id, reason: text_or_empty(&event.params, "/errorText") }
    } else {
        Traffic::Nothing
    }
}

/// Whether a URL carries its own content.
pub open spec fn is_inline(url: Seq<char>) -> bool {
    "data:"@.is_prefix_of(url) || "blob:"@.is_prefix_of(url)
}

/// The requests under way, once some traffic is seen.
pub open spec fn flying_after(in_flight: Set<Seq<char>>, traffic: TrafficView) -> Set<Seq<char>> {
    match traffic {
        TrafficView::Sent { id, url, .. } => if is_inline(url) {
            in_flight
        } else {
            in_flight.insert(id)
        },
        TrafficView::Finished { id } => in_flight.remove(id),
        TrafficView::Broken { id, .. } => in_flight.remove(id),
        _ => in_flight,
    }
}

/// What has been seen, once some traffic is.
pub open spec fn watched_after(watch: WatchView, traffic: TrafficView) -> WatchView {
    match traffic {
        TrafficView::Nothing => watch,
        TrafficView::Sent { id, document, url } => WatchView {
            document: if watch.document is None && document {
                Some(id)
            } else {
                watch.document
            },
            requests: if is_inline(url) {
                watch.requests
            } else {
                watch.requests.push((id, url))
            },
            ..watch
        },
        TrafficView::Received { id, status } => match status_error(status) {
            Some(error) => WatchView { report: reported(watch, id, error, status), ..watch },
            None => watch,
        },
        TrafficView::Finished { .. } => watch,
        TrafficView::Broken { id, reason } => WatchView {
            report: reported(watch, id, chromium_error(reason), 0),
            ..watch
        },
    }
}

/// Take in some traffic.
pub fn watch_traffic(traffic: &Traffic, in_flight: &mut InFlight, watch: &mut Watch)
    ensures
        final(in_flight)@ == flying_after(old(in_flight)@, traffic@),
        final(watch)@ == watched_after(old(watch)@, traffic@),
{
    match traffic {
        Traffic::Nothing => {},
        Traffic::Sent { id, document, url } => {
            if *document {
                watch.note_document(id);
            }
            if begins(url, "data:") || begins(url, "blob:") {
                return ;
            }
            watch.note_url(id, url);
            in_flight.insert(id);
        },
        Traffic::Received { id, status } => {
            if let Some(error) = NetworkError::from_status(*status) {
                watch.record(id, error, *status);
            }
        },
        Traffic::Finished { id } => {
            in_flight.remove(id);
        },
        Traffic::Broken { id, reason } => {
            in_flight.remove(id);
            watch.record(id, NetworkError::from_chromium(reason), 0);
        },
    }
}

/// Take in an event.
pub fn apply_traffic(event: &Event, in_flight: &mut InFlight, watch: &mut Watch)
    ensures
        final(in_flight)@ == flying_after(old(in_flight)@, traffic_of(event@)),
        final(watch)@ == watched_after(old(watch)@, traffic_of(event@)),
{
    let traffic = traffic(event);
    watch_traffic(&traffic, in_flight, watch);
}

/// How long the next event is waited for, in milliseconds: as long as it takes
/// while requests are under way, and the quiet period once none is. When that
/// passes without an event, the network is idle.
pub fn patience(in_flight: &InFlight) -> (patience: Option<u64>)
    ensures
        patience == if in_flight@ == Set::<Seq<char>>::empty() {
            Some(QUIET_PERIOD)
        } else {
            None
        },
{
    if in_flight.is_empty() {
        Some(QUIET_PERIOD)
    } else {
        None
    }
}

/// The script that puts a stylesheet's text into the document.
pub open spec fn sheet_injection(css: Seq<char>) -> Seq<char> {
    "(() => { const sheet = document.createElement('style'); sheet.textContent = "@
        + script_string(css) + "; document.head.appendChild(sheet); })()"@
}

/// The script that links the document to a stylesheet.
pub open spec fn link_injection(url: Seq<char>) -> Seq<char> {
    "(() => { const link = document.createElement('link'); link.rel = 'stylesheet'; link.href = "@
        + script_string(url) + "; document.head.appendChild(link); })()"@
}

/// The script that puts a stylesheet's text into the document.
pub fn inject_sheet(css: &str) -> (script: String)
    ensures
        script@ == sheet_injection(css@),
{
    let mut script =
        "(() => { const sheet = document.createElement('style'); sheet.textContent = ".to_owned();
    script.push_str(&js_string(css));
    script.push_str("; document.head.appendChild(sheet); })()");
    script
}

/// The script that links the document to a stylesheet.
pub fn inject_link(url: &str) -> (script: String)
    ensures
        script@ == link_injection(url@),
{
    let mut script =
        "(() => { const link = document.createElement('link'); link.rel = 'stylesheet'; link.href = ".to_owned();
    script.push_str(&js_string(url));
    script.push_str("; document.head.appendChild(link); })()");
    script
}

/// What a stylesheet of the command line was called.
pub open spec fn injected_name(injection: InjectionView) -> Seq<char> {
    match injection {
        InjectionView::File(path) => path,
        InjectionView::Link(url) => url,
    }
}

/// That a stylesheet could not be put into the document.
pub fn uninjected(injection: &Injection, reason: String) -> (error: Error)
    ensures
        error matches Error::StyleSheet { path, reason: why } && path@ == injected_name(injection@)
            && why@ == reason@,
{
    let path = match injection {
        Injection::File(path) => path.clone(),
        Injection::Link(url) => url.clone(),
    };
    Error::StyleSheet { path, reason }
}

/// What the answer to a script says of an exception, where it threw one: the
/// exception's own description, or else the text beside it, or else only that
/// it threw.
pub open spec fn thrown_in(answer: Seq<char>) -> Option<Seq<char>> {
    if json_holds(answer, "/exceptionDetails"@) {
        Some(
            exception_text(
                json_string_at(answer, "/exceptionDetails/exception/description"@),
                json_string_at(answer, "/exceptionDetails/text"@),
            ),
        )
    } else {
        None
    }
}

/// What is said of an exception.
pub open spec fn exception_text(described: Option<Seq<char>>, text: Option<Seq<char>>) -> Seq<
    char,
> {
    match described {
        Some(words) => words,
        None => match text {
            Some(words) => words,
            None => "the script threw"@,
        },
    }
}

/// What is said of an exception.
pub fn describe_exception(described: Option<String>, text: Option<String>) -> (words: String)
    ensures
        words@ == exception_text(maybe(described), maybe(text)),
{
    match described {
        Some(words) => words,
        None => match text {
            Some(words) => words,
            None => "the script threw".to_owned(),
        },
    }
}

/// Read what the answer to a script says of an exception.
pub fn thrown(answer: &str) -> (message: Option<String>)
    ensures
        maybe(message) == thrown_in(answer@),
{
    if !holds_at(answer, "/exceptionDetails") {
        return None;
    }
    Some(
        describe_exception(
            text_at(answer, "/exceptionDetails/exception/description"),
            text_at(answer, "/exceptionDetails/text"),
        ),
    )
}

/// What the answer to a script of the command line comes to.
pub fn script_outcome(source: &str, answer: &str) -> (outcome: Result<(), Error>)
    ensures
        match thrown_in(answer@) {
            Some(words) => outcome matches Err(Error::Script { source: name, message }) && name@
                == source@ && message@ == words,
            None => outcome is Ok,
        },
{
    match thrown(answer) {
        Some(message) => Err(Error::Script { source: source.to_owned(), message }),
        None => Ok(()),
    }
}

/// Whether a page has set the status that is waited for.
pub fn status_reached(answer: &str, wanted: &str) -> (yes: bool)
    ensures
        yes == (json_string_at(answer@, "/result/value"@) == Some(wanted@)),
{
    match text_at(answer, "/result/value") {
        Some(status) => same(&status, wanted),
        None => false,
    }
}

/// Whether no URL is among failures twice.
pub open spec fn no_failure_twice(media: Seq<FailedView>) -> bool {
    forall|i: int, j: int|
        0 <= i < j < media.len() ==> (#[trigger] media[i]).url != (#[trigger] media[j]).url
}

/// A failure takes one place among the others.
proof fn lemma_placed(
    requests: Seq<(Seq<char>, Seq<char>)>,
    media: Seq<FailedView>,
    failed: FailedView,
) -> (at: int)
    ensures
        0 <= at <= media.len(),
        placed(requests, media, failed) == media.insert(at, failed),
        at > 0 ==> asked_at(requests, media[at - 1].url) <= asked_at(requests, failed.url),
        at < media.len() ==> asked_at(requests, media[at].url) > asked_at(requests, failed.url),
    decreases media.len(),
{
    if media.len() == 0 || asked_at(requests, media.last().url) <= asked_at(requests, failed.url) {
        assert(media.push(failed) =~= media.insert(media.len() as int, failed));
        media.len() as int
    } else {
        let at = lemma_placed(requests, media.drop_last(), failed);
        assert(media.drop_last().insert(at, failed).push(media.last()) =~= media.insert(
            at,
            failed,
        ));
        at
    }
}

/// Whatever traffic is seen, no URL is reported twice, no report is lost or
/// overtaken by another, and the first failure of the document stays the one
/// that is reported.
pub proof fn law_failures_are_reported_once(watch: WatchView, traffic: TrafficView)
    requires
        no_failure_twice(watch.report.media),
    ensures
        no_failure_twice(watched_after(watch, traffic).report.media),
        watched_after(watch, traffic).report.media == watch.report.media || exists|
            at: int,
            failed: FailedView,
        |
            0 <= at <= watch.report.media.len() && watched_after(watch, traffic).report.media
                == #[trigger] watch.report.media.insert(at, failed),
        watch.report.document is Some ==> watched_after(watch, traffic).report.document
            == watch.report.document,
        watch.document is Some ==> watched_after(watch, traffic).document == watch.document,
        watched_after(watch, traffic).report.navigation_failed == watch.report.navigation_failed,
{
    let before = watch.report.media;
    let after = watched_after(watch, traffic).report.media;
    if after != before {
        let failed = newly_failed(watch, traffic);
        let at = lemma_placed(watch.requests, before, failed);
        assert(after == before.insert(at, failed));
        assert forall|i: int, j: int| 0 <= i < j < after.len() implies (#[trigger] after[i]).url
            != (#[trigger] after[j]).url by {
            let (k, l) = (
                if i < at {
                    i
                } else {
                    i - 1
                },
                if j < at {
                    j
                } else {
                    j - 1
                },
            );
            assert(i != at ==> after[i] == before[k]);
            assert(j != at ==> after[j] == before[l]);
            assert(!has_failed(before, failed.url));
        }
    }
}

/// The failure that some traffic tells of.
spec fn newly_failed(watch: WatchView, traffic: TrafficView) -> FailedView {
    match traffic {
        TrafficView::Received { id, status } => FailedView {
            url: url_of_request(watch.requests, id),
            error: status_error(status)->0,
            http_status: status,
        },
        TrafficView::Broken { id, reason } => FailedView {
            url: url_of_request(watch.requests, id),
            error: chromium_error(reason),
            http_status: 0,
        },
        _ => arbitrary(),
    }
}

/// Whether failures stand in the order in which their URLs were first asked for.
/// One that nobody asked for has no URL, and stands last.
pub open spec fn in_the_order_asked(watch: WatchView) -> bool {
    let (requests, media) = (watch.requests, watch.report.media);
    &&& forall|i: int, j: int|
        0 <= i < j < media.len() ==> asked_at(requests, (#[trigger] media[i]).url) <= asked_at(
            requests,
            (#[trigger] media[j]).url,
        )
    &&& forall|i: int|
        0 <= i < media.len() ==> asked_at(requests, (#[trigger] media[i]).url) < requests.len()
            || media[i].url == Seq::<char>::empty()
}

proof fn lemma_asked_at(requests: Seq<(Seq<char>, Seq<char>)>, url: Seq<char>)
    ensures
        asked_at(requests, url) <= requests.len(),
    decreases requests.len(),
{
    if requests.len() > 0 {
        lemma_asked_at(requests.skip(1), url);
    }
}

proof fn lemma_asked_again(
    requests: Seq<(Seq<char>, Seq<char>)>,
    next: (Seq<char>, Seq<char>),
    url: Seq<char>,
)
    ensures
        asked_at(requests.push(next), url) == if asked_at(requests, url) < requests.len() {
            asked_at(requests, url)
        } else if next.1 == url {
            requests.len()
        } else {
            (requests.len() + 1) as nat
        },
    decreases requests.len(),
{
    lemma_asked_at(requests, url);
    if requests.len() == 0 {
        assert(requests.push(next)[0] == next);
        assert(asked_at(requests.push(next).skip(1), url) == 0);
    } else {
        assert(requests.push(next)[0] == requests[0]);
        assert(requests.push(next).skip(1) =~= requests.skip(1).push(next));
        lemma_asked_again(requests.skip(1), next, url);
    }
}

proof fn lemma_requested(requests: Seq<(Seq<char>, Seq<char>)>, id: Seq<char>)
    ensures
        asked_at(requests, url_of_request(requests, id)) < requests.len() || url_of_request(
            requests,
            id,
        ) == Seq::<char>::empty(),
    decreases requests.len(),
{
    if requests.len() > 0 {
        let earlier = requests.drop_last();
        assert(earlier.push(requests.last()) =~= requests);
        lemma_asked_again(earlier, requests.last(), url_of_request(requests, id));
        lemma_asked_at(earlier, url_of_request(requests, id));
        lemma_requested(earlier, id);
    }
}

/// Whatever traffic is seen, and in whatever order requests fail, the failures
/// are reported in the order in which they were asked for.
pub proof fn law_failures_stand_in_the_order_asked(watch: WatchView, traffic: TrafficView)
    requires
        in_the_order_asked(watch),
    ensures
        in_the_order_asked(watched_after(watch, traffic)),
{
    let next = watched_after(watch, traffic);
    let before = watch.report.media;
    let after = next.report.media;
    if let TrafficView::Sent { id, document, url } = traffic {
        assert forall|i: int, j: int| 0 <= i < j < after.len() implies asked_at(
            next.requests,
            (#[trigger] after[i]).url,
        ) <= asked_at(next.requests, (#[trigger] after[j]).url) by {
            lemma_asked_again(watch.requests, (id, url), after[i].url);
            lemma_asked_again(watch.requests, (id, url), after[j].url);
            lemma_asked_at(watch.requests, after[i].url);
            lemma_asked_at(watch.requests, after[j].url);
        }
        assert forall|i: int| 0 <= i < after.len() implies asked_at(
            next.requests,
            (#[trigger] after[i]).url,
        ) < next.requests.len() || after[i].url == Seq::<char>::empty() by {
            lemma_asked_again(watch.requests, (id, url), after[i].url);
        }
    } else if after != before {
        let failed = newly_failed(watch, traffic);
        let requests = watch.requests;
        let at = lemma_placed(requests, before, failed);
        match traffic {
            TrafficView::Received { id, .. } => {
                lemma_requested(requests, id);
            },
            TrafficView::Broken { id, .. } => {
                lemma_requested(requests, id);
            },
            _ => {},
        }
        assert forall|i: int, j: int| 0 <= i < j < after.len() implies asked_at(
            requests,
            (#[trigger] after[i]).url,
        ) <= asked_at(requests, (#[trigger] after[j]).url) by {
            if i < at {
                assert(after[i] == before[i]);
            } else if i > at {
                assert(after[i] == before[i - 1]);
            }
            if j < at {
                assert(after[j] == before[j]);
            } else if j > at {
                assert(after[j] == before[j - 1]);
            }
        }
        assert forall|i: int| 0 <= i < after.len() implies asked_at(
            requests,
            (#[trigger] after[i]).url,
        ) < requests.len() || after[i].url == Seq::<char>::empty() by {
            if i < at {
                assert(after[i] == before[i]);
            } else if i > at {
                assert(after[i] == before[i - 1]);
            }
        }
    }
}

/// Only a failure of the document's own request makes the document fail.
pub proof fn law_media_do_not_fail_the_document(watch: WatchView, traffic: TrafficView)
    requires
        watch.report.document is None,
        match traffic {
            TrafficView::Received { id, .. } => watch.document != Some(id),
            TrafficView::Broken { id, .. } => watch.document != Some(id),
            _ => true,
        },
    ensures
        watched_after(watch, traffic).report.document is None,
{
}

/// A request that begins and ends leaves nothing under way that was not before.
pub proof fn law_a_request_is_over_when_it_ends(
    in_flight: Set<Seq<char>>,
    id: Seq<char>,
    document: bool,
    url: Seq<char>,
    reason: Seq<char>,
)
    requires
        !in_flight.contains(id),
    ensures
        flying_after(
            flying_after(in_flight, TrafficView::Sent { id, document, url }),
            TrafficView::Finished { id },
        ) == in_flight,
        flying_after(
            flying_after(in_flight, TrafficView::Sent { id, document, url }),
            TrafficView::Broken { id, reason },
        ) == in_flight,
{
    assert(in_flight.insert(id).remove(id) =~= in_flight);
    assert(in_flight.remove(id) =~= in_flight);
}

/// A document is opened, waited for, given its stylesheet where there is one, left until
/// the network and the fonts are done, then until its own sign or for its delay, and last
/// its scripts are run where there are some.
pub proof fn law_the_stages_of_loading(plan: LoadPlanView)
    ensures
        stage_after(Stage::Navigating, plan) == Stage::AwaitingLoad,
        plan.inject is Some ==> stage_after(Stage::AwaitingLoad, plan) == Stage::Injecting,
        plan.inject is None ==> stage_after(Stage::AwaitingLoad, plan)
            == Stage::AwaitingNetworkIdle,
        stage_after(Stage::Injecting, plan) == Stage::AwaitingNetworkIdle,
        stage_after(Stage::AwaitingNetworkIdle, plan) == Stage::AwaitingFonts,
        plan.settle is WindowStatus ==> stage_after(Stage::AwaitingFonts, plan)
            == Stage::AwaitingWindowStatus,
        plan.settle is Delay ==> stage_after(Stage::AwaitingFonts, plan) == Stage::Delaying,
        plan.scripts.len() > 0 ==> stage_after(Stage::AwaitingWindowStatus, plan)
            == Stage::RunningScripts && stage_after(Stage::Delaying, plan) == Stage::RunningScripts,
        plan.scripts.len() == 0 ==> stage_after(Stage::AwaitingWindowStatus, plan) == Stage::Settled
            && stage_after(Stage::Delaying, plan) == Stage::Settled,
{
}

/// The URL of a request is the one that was last asked for under its number.
pub proof fn law_the_last_url_of_a_request_counts(
    before: Seq<(Seq<char>, Seq<char>)>,
    id: Seq<char>,
    url: Seq<char>,
    after: Seq<(Seq<char>, Seq<char>)>,
)
    requires
        forall|i: int| 0 <= i < after.len() ==> (#[trigger] after[i]).0 != id,
    ensures
        url_of_request(before + seq![(id, url)] + after, id) == url,
        url_of_request(after, id).len() == 0,
    decreases after.len(),
{
    let all = before + seq![(id, url)] + after;
    if after.len() == 0 {
        assert(all.last() == (id, url));
    } else {
        assert(all.last() == after[after.len() - 1]);
        assert(all.drop_last() =~= before + seq![(id, url)] + after.drop_last());
        assert forall|i: int| 0 <= i < after.drop_last().len() implies (
        #[trigger] after.drop_last()[i]).0 != id by {
            assert(after.drop_last()[i] == after[i]);
        }
        law_the_last_url_of_a_request_counts(before, id, url, after.drop_last());
    }
}

/// Where a URL was first asked for is the first request that names it.
pub proof fn law_where_a_url_was_first_asked_for(
    before: Seq<(Seq<char>, Seq<char>)>,
    id: Seq<char>,
    url: Seq<char>,
    after: Seq<(Seq<char>, Seq<char>)>,
)
    requires
        forall|i: int| 0 <= i < before.len() ==> (#[trigger] before[i]).1 != url,
    ensures
        asked_at(before + seq![(id, url)] + after, url) == before.len(),
        asked_at(before, url) == before.len(),
    decreases before.len(),
{
    let all = before + seq![(id, url)] + after;
    if before.len() == 0 {
        assert(all[0] == (id, url));
    } else {
        assert(all[0] == before[0]);
        assert(all.skip(1) =~= before.skip(1) + seq![(id, url)] + after);
        assert forall|i: int| 0 <= i < before.skip(1).len() implies (#[trigger] before.skip(1)[i]).1
            != url by {
            assert(before.skip(1)[i] == before[i + 1]);
        }
        law_where_a_url_was_first_asked_for(before.skip(1), id, url, after);
    }
}

/// The first request for a document is the document, and every request that the network
/// carries is remembered with its URL.
pub proof fn law_the_first_document_is_the_document(
    watch: WatchView,
    id: Seq<char>,
    document: bool,
    url: Seq<char>,
)
    ensures
        ({
            let after = watched_after(watch, TrafficView::Sent { id, document, url });
            &&& watch.document is None && document ==> after.document == Some(id)
            &&& watch.document is None && !document ==> after.document is None
            &&& watch.document is Some ==> after.document == watch.document
            &&& after.report == watch.report
            &&& !"data:"@.is_prefix_of(url) && !"blob:"@.is_prefix_of(url) ==> after.requests
                == watch.requests.push((id, url))
            &&& "data:"@.is_prefix_of(url) || "blob:"@.is_prefix_of(url) ==> after.requests
                == watch.requests
        }),
{
}

/// A document that the server refuses, or that does not come, has failed: with the status
/// it came with, or with none, and with the first failure if there are several.
pub proof fn law_a_failed_document_is_reported(
    watch: WatchView,
    id: Seq<char>,
    status: u16,
    reason: Seq<char>,
)
    requires
        watch.document == Some(id),
        watch.report.document is None,
    ensures
        status < 400 ==> watched_after(watch, TrafficView::Received { id, status }) == watch,
        status >= 400 ==> watched_after(watch, TrafficView::Received { id, status }) == (WatchView {
            report: LoadReportView {
                document: Some(
                    FailedView {
                        url: url_of_request(watch.requests, id),
                        error: status_error(status)->0,
                        http_status: status,
                    },
                ),
                ..watch.report
            },
            ..watch
        }),
        watched_after(watch, TrafficView::Broken { id, reason }) == (WatchView {
            report: LoadReportView {
                document: Some(
                    FailedView {
                        url: url_of_request(watch.requests, id),
                        error: chromium_error(reason),
                        http_status: 0,
                    },
                ),
                ..watch.report
            },
            ..watch
        }),
        watched_after(watch, TrafficView::Finished { id }) == watch,
{
}

proof fn lemma_all_stay(
    requests: Seq<(Seq<char>, Seq<char>)>,
    media: Seq<FailedView>,
    failed: FailedView,
)
    ensures
        placed(requests, media, failed).len() == media.len() + 1,
        placed(requests, media, failed).contains(failed),
        forall|i: int| 0 <= i < media.len() ==> placed(requests, media, failed).contains(#[trigger] media[i]),
    decreases media.len(),
{
    let all = placed(requests, media, failed);
    if media.len() == 0 || asked_at(requests, media.last().url) <= asked_at(requests, failed.url) {
        assert(all[media.len() as int] == failed);
        assert forall|i: int| 0 <= i < media.len() implies all.contains(#[trigger] media[i]) by {
            assert(all[i] == media[i]);
        }
    } else {
        let before = placed(requests, media.drop_last(), failed);
        lemma_all_stay(requests, media.drop_last(), failed);
        let at = choose|at: int| 0 <= at < before.len() && before[at] == failed;
        assert(all[at] == failed);
        assert forall|i: int| 0 <= i < media.len() implies all.contains(#[trigger] media[i]) by {
            if i == media.len() - 1 {
                assert(all[media.len() as int] == media[i]);
            } else {
                assert(before.contains(media.drop_last()[i]));
                let k = choose|k: int| 0 <= k < before.len() && before[k] == media.drop_last()[i];
                assert(all[k] == media[i]);
            }
        }
    }
}

/// Anything else that the server refuses, or that does not come, is a medium that failed,
/// once for each URL; the icon that the browser asks for by itself is none. The failures
/// there were stay.
pub proof fn law_a_failed_medium_is_reported(
    watch: WatchView,
    id: Seq<char>,
    status: u16,
    reason: Seq<char>,
)
    requires
        watch.document != Some(id),
    ensures
        ({
            let url = url_of_request(watch.requests, id);
            let received = watched_after(watch, TrafficView::Received { id, status });
            let broken = watched_after(watch, TrafficView::Broken { id, reason });
            let known = "/favicon.ico"@.is_suffix_of(url) || exists|i: int|
                0 <= i < watch.report.media.len() && (#[trigger] watch.report.media[i]).url == url;
            &&& status < 400 ==> received == watch
            &&& known ==> received == watch && broken == watch
            &&& !known && status >= 400 ==> {
                &&& received.report.media.len() == watch.report.media.len() + 1
                &&& received.report.media.contains(
                    FailedView { url, error: status_error(status)->0, http_status: status },
                )
                &&& forall|i: int|
                    0 <= i < watch.report.media.len() ==> received.report.media.contains(
                        #[trigger] watch.report.media[i],
                    )
                &&& received.report.document == watch.report.document
            }
            &&& !known ==> {
                &&& broken.report.media.len() == watch.report.media.len() + 1
                &&& broken.report.media.contains(
                    FailedView { url, error: chromium_error(reason), http_status: 0 },
                )
                &&& forall|i: int|
                    0 <= i < watch.report.media.len() ==> broken.report.media.contains(
                        #[trigger] watch.report.media[i],
                    )
                &&& broken.report.document == watch.report.document
            }
        }),
{
    let url = url_of_request(watch.requests, id);
    if status >= 400 {
        lemma_all_stay(
            watch.requests,
            watch.report.media,
            FailedView { url, error: status_error(status)->0, http_status: status },
        );
    }
    lemma_all_stay(
        watch.requests,
        watch.report.media,
        FailedView { url, error: chromium_error(reason), http_status: 0 },
    );
}

/// A request is under way from when it is sent until it ends; one that carries its own
/// content never is, and a first answer does not end one.
pub proof fn law_what_is_under_way(
    in_flight: Set<Seq<char>>,
    id: Seq<char>,
    other: Seq<char>,
    document: bool,
    url: Seq<char>,
    status: u16,
)
    ensures
        !"data:"@.is_prefix_of(url) && !"blob:"@.is_prefix_of(url) ==> flying_after(
            in_flight,
            TrafficView::Sent { id, document, url },
        ).contains(id),
        "data:"@.is_prefix_of(url) || "blob:"@.is_prefix_of(url) ==> flying_after(
            in_flight,
            TrafficView::Sent { id, document, url },
        ) == in_flight,
        flying_after(in_flight, TrafficView::Received { id, status }) == in_flight,
        flying_after(in_flight, TrafficView::Nothing) == in_flight,
        !flying_after(in_flight, TrafficView::Finished { id }).contains(id),
        other != id ==> (flying_after(in_flight, TrafficView::Finished { id }).contains(other)
            <==> in_flight.contains(other)),
        other != id ==> (flying_after(in_flight, TrafficView::Sent { id, document, url }).contains(
            other,
        ) <==> in_flight.contains(other)),
{
}

/// What the events of the network say, by their names; an event without a request, and
/// every other event, says nothing.
pub proof fn law_what_events_say_of_traffic(event: EventView, id: Seq<char>)
    requires
        json_string_at(event.params, "/requestId"@) == Some(id),
    ensures
        event.method == "Network.requestWillBeSent"@ ==> traffic_of(event) == (TrafficView::Sent {
            id,
            document: json_string_at(event.params, "/type"@) == Some("Document"@),
            url: if json_string_at(event.params, "/request/url"@) is Some {
                json_string_at(event.params, "/request/url"@)->0
            } else {
                Seq::empty()
            },
        }),
        event.method == "Network.responseReceived"@ && json_number_at(
            event.params,
            "/response/status"@,
        ) is None ==> traffic_of(event) == (TrafficView::Received { id, status: 200 }),
        event.method == "Network.responseReceived"@ && json_number_at(
            event.params,
            "/response/status"@,
        ) is Some && 0 <= json_number_at(event.params, "/response/status"@)->0 < 65536
            ==> traffic_of(event) == (TrafficView::Received {
            id,
            status: json_number_at(event.params, "/response/status"@)->0 as u16,
        }),
        event.method == "Network.loadingFinished"@ ==> traffic_of(event) == (
        TrafficView::Finished { id }),
        event.method == "Network.loadingFailed"@ ==> traffic_of(event) == (TrafficView::Broken {
            id,
            reason: if json_string_at(event.params, "/errorText"@) is Some {
                json_string_at(event.params, "/errorText"@)->0
            } else {
                Seq::empty()
            },
        }),
        event.method != "Network.requestWillBeSent"@ && event.method
            != "Network.responseReceived"@ && event.method != "Network.loadingFinished"@
            && event.method != "Network.loadingFailed"@ ==> traffic_of(event) is Nothing,
{
    reveal_strlit("Network.requestWillBeSent");
    reveal_strlit("Network.responseReceived");
    reveal_strlit("Network.loadingFinished");
    reveal_strlit("Network.loadingFailed");
    assert("Network.requestWillBeSent"@.len() == 25);
    assert("Network.responseReceived"@.len() == 24);
    assert("Network.loadingFinished"@.len() == 23);
    assert("Network.loadingFailed"@.len() == 21);
}

/// A browser that could not go somewhere says why, and the document has failed without a
/// status; otherwise it says nothing.
pub proof fn law_a_refused_navigation_fails_the_document(url: Seq<char>, answer: Seq<char>)
    ensures
        json_string_at(answer, "/errorText"@) is None <==> refused_navigation(url, answer) is None,
        json_string_at(answer, "/errorText"@) matches Some(reason) ==> refused_navigation(
            url,
            answer,
        ) == Some(
            LoadReportView {
                document: Some(FailedView { url, error: chromium_error(reason), http_status: 0 }),
                navigation_failed: true,
                media: Seq::empty(),
            },
        ),
{
}

/// What a script threw is told in its own words, or in the words beside them, or at least
/// as having been thrown; where nothing was thrown there is nothing to tell.
pub proof fn law_what_is_told_of_an_exception(answer: Seq<char>)
    ensures
        !json_holds(answer, "/exceptionDetails"@) <==> thrown_in(answer) is None,
        json_holds(answer, "/exceptionDetails"@) ==> ({
            let described = json_string_at(answer, "/exceptionDetails/exception/description"@);
            let beside = json_string_at(answer, "/exceptionDetails/text"@);
            &&& described is Some ==> thrown_in(answer) == described
            &&& described is None && beside is Some ==> thrown_in(answer) == beside
            &&& described is None && beside is None ==> thrown_in(answer) == Some(
                "the script threw"@,
            )
        }),
{
}

/// A stylesheet reaches the document as the text of a style or as the target of a link,
/// written so that the script cannot end it.
pub proof fn law_how_a_stylesheet_is_injected(text: Seq<char>, failed: FailedView)
    ensures
        sheet_injection(text)
            == "(() => { const sheet = document.createElement('style'); sheet.textContent = "@
            + script_string(text) + "; document.head.appendChild(sheet); })()"@,
        link_injection(text)
            == "(() => { const link = document.createElement('link'); link.rel = 'stylesheet'; link.href = "@
            + script_string(text) + "; document.head.appendChild(link); })()"@,
        failed_text(failed) == failed.url + " ("@ + error_name(failed.error)@ + ")"@,
{
}

/// What is said of a stage where the time runs out in it.
pub proof fn law_what_goes_on_in_a_stage(stage: Stage, injection: InjectionView)
    ensures
        stage == Stage::Navigating ==> stage_text(stage)@ == "opening the document"@,
        stage == Stage::AwaitingLoad ==> stage_text(stage)@ == "waiting for the page to load"@,
        stage == Stage::Injecting ==> stage_text(stage)@
            == "putting the user stylesheet into the document"@,
        stage == Stage::AwaitingNetworkIdle ==> stage_text(stage)@
            == "waiting for the network to go idle"@,
        stage == Stage::AwaitingFonts ==> stage_text(stage)@ == "waiting for web fonts"@,
        stage == Stage::AwaitingWindowStatus ==> stage_text(stage)@ == "waiting for window.status"@,
        stage == Stage::Delaying ==> stage_text(stage)@ == "waiting out the JavaScript delay"@,
        stage == Stage::RunningScripts ==> stage_text(stage)@ == "running --run-script"@,
        injection matches InjectionView::File(path) ==> injected_name(injection) == path,
        injection matches InjectionView::Link(url) ==> injected_name(injection) == url,
{
}

} // verus!
