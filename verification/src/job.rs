//! The order in which the documents of a conversion are worked through.
//!
//! A [`Job`] decides, and whoever runs it does the work: it asks for one
//! [`Action`] at a time and is told what came of it in an [`Event`].

use crate::band::Edge;
use crate::convert::{
    judged, missing_report, needs_browser, outcomes_after, ConvertError, Judgement, Outcomes,
    OutcomesView,
};
use crate::error::Error;
use crate::intercept::{refusals_of, Refusal, RefusalView};
use crate::launch::{LaunchOptions, LaunchOptionsView};
use crate::network::NetworkError;
use crate::render::{failures_of, Failed, FailedView, LoadReport, LoadReportView};
use crate::settings::{LoadErrorHandling, ObjectKind, ObjectSettings, ObjectSettingsView};
use crate::text::{contains_text, maybe, texts};
use vstd::prelude::*;

verus! {

/// What a job needs to know of an object.
#[derive(Debug, PartialEq, Eq)]
pub struct Task {
    /// Whether it is a table of contents, which is printed once the documents
    /// are.
    pub table: bool,
    /// What its browser is started with.
    pub launch: LaunchOptions,
    /// The URL of its document.
    pub url: String,
    /// What a document that is not there counts as.
    pub missing: Option<NetworkError>,
    /// The URL of its header, where that is a document.
    pub header: Option<String>,
    /// The URL of its footer, where that is a document.
    pub footer: Option<String>,
    /// Whether its headings are to be measured.
    pub back_links: bool,
    pub handling: LoadErrorHandling,
}

/// A [`Task`] by the characters it holds.
pub struct TaskView {
    pub table: bool,
    pub launch: LaunchOptionsView,
    pub url: Seq<char>,
    pub missing: Option<NetworkError>,
    pub header: Option<Seq<char>>,
    pub footer: Option<Seq<char>>,
    pub back_links: bool,
    pub handling: LoadErrorHandling,
}

impl View for Task {
    type V = TaskView;

    open spec fn view(&self) -> TaskView {
        TaskView {
            table: self.table,
            launch: self.launch@,
            url: self.url@,
            missing: self.missing,
            header: maybe(self.header),
            footer: maybe(self.footer),
            back_links: self.back_links,
            handling: self.handling,
        }
    }
}

/// The tasks of a list, by the characters they hold.
pub open spec fn tasks_of(list: Seq<Task>) -> Seq<TaskView> {
    list.map_values(|task: Task| task@)
}

/// What a job needs to know of an object.
pub open spec fn task_of(
    object: ObjectSettingsView,
    launch: LaunchOptionsView,
    url: Seq<char>,
    missing: Option<NetworkError>,
    header: Option<Seq<char>>,
    footer: Option<Seq<char>>,
) -> TaskView {
    TaskView {
        table: object.kind == ObjectKind::Toc,
        launch,
        url,
        missing,
        header,
        footer,
        back_links: object.toc.back_links,
        handling: object.load.on_document_error,
    }
}

impl Task {
    /// What a job needs to know of an object.
    pub fn new(
        object: &ObjectSettings,
        launch: LaunchOptions,
        url: String,
        missing: Option<NetworkError>,
        header: Option<String>,
        footer: Option<String>,
    ) -> (task: Task)
        ensures
            task@ == task_of(object@, launch@, url@, missing, maybe(header), maybe(footer)),
    {
        Task {
            table: match object.kind {
                ObjectKind::Toc => true,
                _ => false,
            },
            launch,
            url,
            missing,
            header,
            footer,
            back_links: object.toc.back_links,
            handling: object.load.on_document_error,
        }
    }
}

/// What a job asks for.
#[derive(Debug, PartialEq, Eq)]
pub enum Action {
    /// Close the browser.
    Close,
    /// Start a browser as an object needs it.
    Launch(usize),
    /// Measure the document of a band.
    Measure(usize, Edge),
    /// Open a page for a document that is not there.
    Open(usize),
    /// Open a page and load a document.
    Load(usize),
    /// Empty the page.
    Blank(usize),
    /// Print the page, with its headings measured or not.
    Print { index: usize, headings: bool },
    /// Go on to the tables and the file.
    Finish,
    /// Give up.
    Fail(ConvertError),
}

/// Why a job gives up.
pub enum FailureView {
    /// Every document was skipped.
    NothingLeft(Seq<Seq<char>>),
    /// A document did not load.
    Document(FailedView),
    /// A server refused the credentials.
    Credentials(Seq<char>),
    /// Something that a job does not decide.
    Other,
}

/// An [`Action`] by the characters it holds.
pub enum ActionView {
    Close,
    Launch(int),
    Measure(int, Edge),
    Open(int),
    Load(int),
    Blank(int),
    Print { index: int, headings: bool },
    Finish,
    Fail(FailureView),
}

/// Why a job gives up, by the error it gives up with.
pub open spec fn failure_of(error: ConvertError) -> FailureView {
    match error {
        ConvertError::NothingLeft(lines) => FailureView::NothingLeft(texts(lines@)),
        ConvertError::DocumentFailed(failed) => FailureView::Document(failed@),
        ConvertError::Browser(Error::Credentials { url }) => FailureView::Credentials(url@),
        _ => FailureView::Other,
    }
}

impl View for Action {
    type V = ActionView;

    open spec fn view(&self) -> ActionView {
        match *self {
            Action::Close => ActionView::Close,
            Action::Launch(index) => ActionView::Launch(index as int),
            Action::Measure(index, edge) => ActionView::Measure(index as int, edge),
            Action::Open(index) => ActionView::Open(index as int),
            Action::Load(index) => ActionView::Load(index as int),
            Action::Blank(index) => ActionView::Blank(index as int),
            Action::Print { index, headings } => ActionView::Print {
                index: index as int,
                headings,
            },
            Action::Finish => ActionView::Finish,
            Action::Fail(error) => ActionView::Fail(failure_of(error)),
        }
    }
}

/// What came of an action.
#[derive(Debug, PartialEq, Eq)]
pub enum Event {
    /// It was done.
    Done,
    /// A document was loaded. `rejected` says whether a server refused the
    /// credentials.
    Loaded { report: LoadReport, rejected: bool },
    /// A page was printed, and these of its requests were refused.
    Printed { refused: Vec<Refusal> },
}

/// An [`Event`] by the characters it holds.
pub enum EventView {
    Done,
    Loaded { report: LoadReportView, rejected: bool },
    Printed { refused: Seq<RefusalView> },
}

impl View for Event {
    type V = EventView;

    open spec fn view(&self) -> EventView {
        match *self {
            Event::Done => EventView::Done,
            Event::Loaded { report, rejected } => EventView::Loaded { report: report@, rejected },
            Event::Printed { refused } => EventView::Printed { refused: refusals_of(refused@) },
        }
    }
}

/// What a job waits for.
#[derive(Debug, PartialEq, Eq)]
pub enum Phase {
    Closing,
    Launching,
    Measuring(Edge),
    Opening,
    Loading,
    /// The requests of the document that failed are kept.
    Blanking(Vec<Failed>),
    /// The requests of the document that failed are kept.
    Printing(Vec<Failed>),
    /// A browser for the tables.
    Tables,
    Over,
}

/// A [`Phase`] by the characters it holds.
pub enum PhaseView {
    Closing,
    Launching,
    Measuring(Edge),
    Opening,
    Loading,
    Blanking(Seq<FailedView>),
    Printing(Seq<FailedView>),
    Tables,
    Over,
}

impl View for Phase {
    type V = PhaseView;

    open spec fn view(&self) -> PhaseView {
        match *self {
            Phase::Closing => PhaseView::Closing,
            Phase::Launching => PhaseView::Launching,
            Phase::Measuring(edge) => PhaseView::Measuring(edge),
            Phase::Opening => PhaseView::Opening,
            Phase::Loading => PhaseView::Loading,
            Phase::Blanking(media) => PhaseView::Blanking(failures_of(media@)),
            Phase::Printing(media) => PhaseView::Printing(failures_of(media@)),
            Phase::Tables => PhaseView::Tables,
            Phase::Over => PhaseView::Over,
        }
    }
}

/// Where a job stands.
pub struct JobView {
    pub tasks: Seq<TaskView>,
    /// The object that is worked on.
    pub at: int,
    pub phase: PhaseView,
    /// What the running browser was started with.
    pub running: Option<LaunchOptionsView>,
    /// The URLs of the band documents that were measured.
    pub measured: Seq<Seq<char>>,
    /// The objects that were printed.
    pub printed: Seq<int>,
    pub outcomes: OutcomesView,
}

/// The first table of contents from a position on, or the number of objects.
pub open spec fn table_from(tasks: Seq<TaskView>, from: int) -> int
    decreases tasks.len() - from,
{
    if from >= tasks.len() || tasks[from].table {
        from
    } else {
        table_from(tasks, from + 1)
    }
}

/// Whether there is a table of contents.
pub open spec fn has_table(tasks: Seq<TaskView>) -> bool {
    table_from(tasks, 0) < tasks.len()
}

/// Past the last object. A job without a document and without a table fails,
/// and the tables get a browser where none is running.
pub open spec fn ended(job: JobView) -> (JobView, ActionView) {
    if job.printed.len() == 0 && !has_table(job.tasks) {
        (
            JobView { phase: PhaseView::Over, ..job },
            ActionView::Fail(FailureView::NothingLeft(job.outcomes.skipped)),
        )
    } else if has_table(job.tasks) && job.running is None {
        (
            JobView { phase: PhaseView::Tables, ..job },
            ActionView::Launch(table_from(job.tasks, 0)),
        )
    } else {
        (JobView { phase: PhaseView::Over, ..job }, ActionView::Finish)
    }
}

/// The document itself is loaded, unless it is not there.
pub open spec fn document_step(job: JobView) -> (JobView, ActionView) {
    if job.tasks[job.at].missing is Some {
        (JobView { phase: PhaseView::Opening, ..job }, ActionView::Open(job.at))
    } else {
        (JobView { phase: PhaseView::Loading, ..job }, ActionView::Load(job.at))
    }
}

/// Whether the document of a band is yet to be measured.
pub open spec fn unmeasured(job: JobView, url: Option<Seq<char>>) -> bool {
    url is Some && !job.measured.contains(url->0)
}

/// The footer is measured before the document is loaded, once.
pub open spec fn footer_step(job: JobView) -> (JobView, ActionView) {
    if unmeasured(job, job.tasks[job.at].footer) {
        (
            JobView { phase: PhaseView::Measuring(Edge::Footer), ..job },
            ActionView::Measure(job.at, Edge::Footer),
        )
    } else {
        document_step(job)
    }
}

/// The header is measured before the footer, once.
pub open spec fn header_step(job: JobView) -> (JobView, ActionView) {
    if unmeasured(job, job.tasks[job.at].header) {
        (
            JobView { phase: PhaseView::Measuring(Edge::Header), ..job },
            ActionView::Measure(job.at, Edge::Header),
        )
    } else {
        footer_step(job)
    }
}

/// A browser that was started otherwise gives way to one that suits the object.
pub open spec fn browser_step(job: JobView) -> (JobView, ActionView) {
    match job.running {
        Some(running) => if running == job.tasks[job.at].launch {
            header_step(job)
        } else {
            (JobView { phase: PhaseView::Closing, ..job }, ActionView::Close)
        },
        None => (
            JobView { phase: PhaseView::Launching, ..job },
            ActionView::Launch(job.at),
        ),
    }
}

/// Turn to an object. Tables are passed over.
pub open spec fn begun(job: JobView) -> (JobView, ActionView)
    decreases job.tasks.len() - job.at,
{
    if job.at >= job.tasks.len() {
        ended(job)
    } else if job.tasks[job.at].table {
        begun(JobView { at: job.at + 1, ..job })
    } else {
        browser_step(job)
    }
}

/// Past a document that was judged.
pub open spec fn past_judged(job: JobView, report: LoadReportView) -> JobView {
    JobView {
        at: job.at + 1,
        phase: PhaseView::Over,
        outcomes: outcomes_after(job.outcomes, report, job.tasks[job.at].handling),
        ..job
    }
}

/// Past a document that was printed.
pub open spec fn past_printed(
    job: JobView,
    media: Seq<FailedView>,
    refused: Seq<RefusalView>,
) -> JobView {
    JobView {
        at: job.at + 1,
        phase: PhaseView::Over,
        printed: job.printed.push(job.at),
        outcomes: OutcomesView {
            refused: job.outcomes.refused + refused,
            media: job.outcomes.media.push((job.at as usize, media)),
            ..job.outcomes
        },
        ..job
    }
}

/// Once a document is loaded: what becomes of it.
pub open spec fn judged_step(job: JobView, report: LoadReportView, rejected: bool) -> (
    JobView,
    ActionView,
) {
    let task = job.tasks[job.at];
    if rejected {
        (
            JobView { phase: PhaseView::Over, ..job },
            ActionView::Fail(FailureView::Credentials(task.url)),
        )
    } else {
        let next = JobView {
            outcomes: outcomes_after(job.outcomes, report, task.handling),
            ..job
        };
        match judged(report, task.handling) {
            Judgement::Abort => (
                JobView { phase: PhaseView::Over, ..next },
                ActionView::Fail(FailureView::Document(report.document->0)),
            ),
            Judgement::Skip => begun(past_judged(job, report)),
            Judgement::PrintBlank => (
                JobView { phase: PhaseView::Blanking(report.media), ..next },
                ActionView::Blank(job.at),
            ),
            Judgement::Print => (
                JobView { phase: PhaseView::Printing(report.media), ..next },
                ActionView::Print {
                    index: job.at,
                    headings: task.back_links && !report.navigation_failed,
                },
            ),
        }
    }
}

/// The report of a document that is not there.
pub open spec fn absent(task: TaskView) -> LoadReportView {
    LoadReportView {
        document: Some(FailedView { url: task.url, error: task.missing->0, http_status: 0 }),
        navigation_failed: true,
        media: Seq::empty(),
    }
}

/// Whether a job waits for such an event.
pub open spec fn awaits(phase: PhaseView, event: EventView) -> bool {
    match phase {
        PhaseView::Loading => event is Loaded,
        PhaseView::Printing(_) => event is Printed,
        PhaseView::Over => false,
        _ => event is Done,
    }
}

/// Where a job stands after an event, and what it asks for next.
pub open spec fn after(job: JobView, event: EventView) -> (JobView, ActionView) {
    let task = job.tasks[job.at];
    match job.phase {
        PhaseView::Closing => (
            JobView { phase: PhaseView::Launching, running: None, ..job },
            ActionView::Launch(job.at),
        ),
        PhaseView::Launching => header_step(JobView { running: Some(task.launch), ..job }),
        PhaseView::Measuring(Edge::Header) => footer_step(
            JobView { measured: job.measured.push(task.header->0), ..job },
        ),
        PhaseView::Measuring(Edge::Footer) => document_step(
            JobView { measured: job.measured.push(task.footer->0), ..job },
        ),
        PhaseView::Opening => judged_step(job, absent(task), false),
        PhaseView::Loading => judged_step(job, event->report, event->rejected),
        PhaseView::Blanking(media) => (
            JobView { phase: PhaseView::Printing(media), ..job },
            ActionView::Print { index: job.at, headings: false },
        ),
        PhaseView::Printing(media) => begun(past_printed(job, media, event->refused)),
        PhaseView::Tables => (
            JobView {
                phase: PhaseView::Over,
                running: Some(job.tasks[table_from(job.tasks, 0)].launch),
                ..job
            },
            ActionView::Finish,
        ),
        PhaseView::Over => (job, ActionView::Finish),
    }
}

/// How many of the first objects are documents.
pub open spec fn documents_until(tasks: Seq<TaskView>, upto: int) -> int
    decreases upto,
{
    if upto <= 0 {
        0
    } else {
        documents_until(tasks, upto - 1) + if tasks[upto - 1].table {
            0int
        } else {
            1int
        }
    }
}

/// Whether a job waits for something that concerns its object.
pub open spec fn at_work(phase: PhaseView) -> bool {
    !(phase is Tables) && !(phase is Over)
}

/// Whether a job waits for something that its object's own browser does.
pub open spec fn in_browser(phase: PhaseView) -> bool {
    at_work(phase) && !(phase is Closing) && !(phase is Launching)
}

/// What holds of every job.
pub open spec fn sound(job: JobView) -> bool {
    let task = job.tasks[job.at];
    // It is at an object, or past the last.
    &&& 0 <= job.at <= job.tasks.len() <= usize::MAX
    &&& at_work(job.phase) ==> job.at < job.tasks.len() && !task.table
    // The browser that runs is the one that the object needs.
    &&& in_browser(job.phase) ==> job.running == Some(task.launch)
    &&& job.phase is Closing ==> job.running is Some && job.running != Some(task.launch)
    &&& job.phase is Launching ==> job.running is None
    &&& job.phase is Tables ==> job.running is None && has_table(job.tasks)
    // No band document is measured twice.
    &&& job.phase == PhaseView::Measuring(Edge::Header) ==> unmeasured(job, task.header)
    &&& job.phase == PhaseView::Measuring(Edge::Footer) ==> unmeasured(job, task.footer)
    &&& job.measured.no_duplicates()
    &&& job.phase is Opening ==> task.missing is Some
    &&& job.phase is Loading ==> task.missing is None
    // Documents are printed once, in their order.
    &&& forall|i: int|
        0 <= i < job.printed.len() ==> 0 <= #[trigger] job.printed[i] < job.at
            && !job.tasks[job.printed[i]].table
    &&& forall|i: int, j: int|
        0 <= i < j < job.printed.len() ==> job.printed[i] < job.printed[j]
    // What their requests met with is kept beside them.
    &&& job.outcomes.media.len() == job.printed.len()
    &&& forall|i: int|
        0 <= i < job.printed.len() ==> (#[trigger] job.outcomes.media[i]).0 == job.printed[i]
    // A document is printed or left out.
    &&& !(job.phase is Over) ==> job.printed.len() + job.outcomes.skipped.len()
        == documents_until(job.tasks, job.at)
}

/// The place of a job at its first object.
pub open spec fn fresh(tasks: Seq<TaskView>) -> JobView {
    JobView {
        tasks,
        at: 0,
        phase: PhaseView::Over,
        running: None,
        measured: Seq::empty(),
        printed: Seq::empty(),
        outcomes: OutcomesView {
            refused: Seq::empty(),
            media: Seq::empty(),
            skipped: Seq::empty(),
            failed: Seq::empty(),
        },
    }
}

/// What holds of a job between two objects.
pub open spec fn sound_between(job: JobView) -> bool {
    &&& sound(JobView { phase: PhaseView::Over, ..job })
    &&& job.printed.len() + job.outcomes.skipped.len() == documents_until(job.tasks, job.at)
}

proof fn lemma_table_from(tasks: Seq<TaskView>, from: int)
    requires
        0 <= from <= tasks.len(),
    ensures
        from <= table_from(tasks, from) <= tasks.len(),
        table_from(tasks, from) < tasks.len() ==> tasks[table_from(tasks, from)].table,
        forall|i: int| from <= i < table_from(tasks, from) ==> !(#[trigger] tasks[i]).table,
    decreases tasks.len() - from,
{
    if from < tasks.len() && !tasks[from].table {
        lemma_table_from(tasks, from + 1);
    }
}

proof fn lemma_begun(job: JobView)
    requires
        sound_between(job),
    ensures
        sound(begun(job).0),
        begun(job).0.at >= job.at,
        begun(job).0.tasks == job.tasks,
        begun(job).1 is Finish || begun(job).1 is Fail || begun(job).1 is Launch && !at_work(
            begun(job).0.phase,
        ) ==> begun(job).0.printed.len() + begun(job).0.outcomes.skipped.len() == documents_until(
            job.tasks,
            job.tasks.len() as int,
        ),
    decreases job.tasks.len() - job.at,
{
    if job.at < job.tasks.len() && job.tasks[job.at].table {
        lemma_begun(JobView { at: job.at + 1, ..job });
    }
}

/// A job stays sound whatever happens: its documents are printed once and in
/// their order, no band is measured twice, and every page is worked on in the
/// browser that its object needs.
pub proof fn law_a_job_stays_sound(job: JobView, event: EventView)
    requires
        sound(job),
        awaits(job.phase, event),
    ensures
        sound(after(job, event).0),
        after(job, event).0.tasks == job.tasks,
{
    let task = job.tasks[job.at];
    match job.phase {
        PhaseView::Opening => {
            lemma_judged(job, absent(task), false);
        },
        PhaseView::Loading => {
            lemma_judged(job, event->report, event->rejected);
        },
        PhaseView::Printing(media) => {
            lemma_printed(job, event);
        },
        PhaseView::Tables => {
            lemma_table_from(job.tasks, 0);
        },
        _ => {},
    }
}

proof fn lemma_judged(job: JobView, report: LoadReportView, rejected: bool)
    requires
        sound(job),
        job.phase is Opening || job.phase is Loading,
    ensures
        sound(judged_step(job, report, rejected).0),
        judged_step(job, report, rejected).0.tasks == job.tasks,
{
    if !rejected && judged(report, job.tasks[job.at].handling) is Skip {
        let next = past_judged(job, report);
        assert(sound_between(next));
        lemma_begun(next);
    }
}

proof fn lemma_printed(job: JobView, event: EventView)
    requires
        sound(job),
        job.phase is Printing,
    ensures
        sound(after(job, event).0),
        after(job, event).0.tasks == job.tasks,
{
    let next = past_printed(job, job.phase->Printing_0, event->refused);
    assert(sound_between(next));
    lemma_begun(next);
}

/// A job begins sound.
pub proof fn law_a_job_begins_sound(tasks: Seq<TaskView>)
    requires
        tasks.len() <= usize::MAX,
    ensures
        sound(begun(fresh(tasks)).0),
        begun(fresh(tasks)).0.tasks == tasks,
{
    lemma_begun(fresh(tasks));
}

/// A page is opened, loaded, emptied or printed, and a band is measured, only
/// in a browser that was started as the object needs it.
pub proof fn law_the_right_browser_is_running(job: JobView, event: EventView)
    requires
        sound(job),
        awaits(job.phase, event),
    ensures
        match after(job, event).1 {
            ActionView::Measure(index, _) | ActionView::Open(index) | ActionView::Load(index)
            | ActionView::Blank(index) | ActionView::Print { index, .. } => {
                &&& 0 <= index < job.tasks.len()
                &&& !job.tasks[index].table
                &&& after(job, event).0.running == Some(job.tasks[index].launch)
            },
            _ => true,
        },
{
    law_a_job_stays_sound(job, event);
    match job.phase {
        PhaseView::Opening => {
            lemma_judged_action(job, absent(job.tasks[job.at]), false);
        },
        PhaseView::Loading => {
            lemma_judged_action(job, event->report, event->rejected);
        },
        PhaseView::Printing(media) => {
            lemma_begun_action(past_printed(job, media, event->refused));
        },
        _ => {},
    }
}

/// Whether an action is one on the object that a job is at, in its browser.
pub open spec fn suits(action: ActionView, job: JobView) -> bool {
    match action {
        ActionView::Measure(index, _) | ActionView::Open(index) | ActionView::Load(index)
        | ActionView::Blank(index) | ActionView::Print { index, .. } => index == job.at
            && in_browser(job.phase),
        _ => true,
    }
}

proof fn lemma_begun_action(job: JobView)
    ensures
        suits(begun(job).1, begun(job).0),
    decreases job.tasks.len() - job.at,
{
    if job.at < job.tasks.len() && job.tasks[job.at].table {
        lemma_begun_action(JobView { at: job.at + 1, ..job });
    }
}

proof fn lemma_judged_action(job: JobView, report: LoadReportView, rejected: bool)
    ensures
        suits(judged_step(job, report, rejected).1, judged_step(job, report, rejected).0),
{
    lemma_begun_action(past_judged(job, report));
}

/// A job that goes on to its file has printed or left out every document.
pub proof fn law_no_document_is_lost(job: JobView, event: EventView)
    requires
        sound(job),
        awaits(job.phase, event),
        after(job, event).1 is Finish,
        !(job.phase is Tables),
    ensures
        ({
            let end = after(job, event).0;
            end.printed.len() + end.outcomes.skipped.len() == documents_until(
                job.tasks,
                job.tasks.len() as int,
            )
        }),
{
    match job.phase {
        PhaseView::Opening => {
            lemma_judged_end(job, absent(job.tasks[job.at]));
        },
        PhaseView::Loading => {
            lemma_judged_end(job, event->report);
        },
        PhaseView::Printing(media) => {
            let next = past_printed(job, media, event->refused);
            assert(sound_between(next));
            lemma_begun(next);
        },
        _ => {},
    }
}

proof fn lemma_judged_end(job: JobView, report: LoadReportView)
    requires
        sound(job),
        job.phase is Opening || job.phase is Loading,
    ensures
        judged_step(job, report, false).1 is Finish ==> judged_step(
            job,
            report,
            false,
        ).0.printed.len() + judged_step(job, report, false).0.outcomes.skipped.len()
            == documents_until(job.tasks, job.tasks.len() as int),
{
    if judged(report, job.tasks[job.at].handling) is Skip {
        let next = past_judged(job, report);
        assert(sound_between(next));
        lemma_begun(next);
    }
}

/// How far a job is from its end.
pub open spec fn distance(job: JobView) -> int {
    (job.tasks.len() - job.at) * 8 + match job.phase {
        PhaseView::Closing => 7int,
        PhaseView::Launching => 6,
        PhaseView::Measuring(Edge::Header) => 5,
        PhaseView::Measuring(Edge::Footer) => 4,
        PhaseView::Opening | PhaseView::Loading => 3,
        PhaseView::Blanking(_) => 2,
        PhaseView::Printing(_) | PhaseView::Tables => 1,
        PhaseView::Over => 0,
    }
}

proof fn lemma_begun_distance(job: JobView)
    requires
        0 <= job.at <= job.tasks.len(),
    ensures
        0 <= distance(begun(job).0) <= (job.tasks.len() - job.at) * 8 + 7,
        job.at == job.tasks.len() ==> distance(begun(job).0) <= 1,
    decreases job.tasks.len() - job.at,
{
    if job.at < job.tasks.len() && job.tasks[job.at].table {
        lemma_begun_distance(JobView { at: job.at + 1, ..job });
    }
}

/// A job ends: every event brings it nearer to its end.
pub proof fn law_a_job_ends(job: JobView, event: EventView)
    requires
        sound(job),
        awaits(job.phase, event),
    ensures
        0 <= distance(after(job, event).0) < distance(job),
{
    match job.phase {
        PhaseView::Opening | PhaseView::Loading => {
            let report = if job.phase is Opening {
                absent(job.tasks[job.at])
            } else {
                event->report
            };
            lemma_begun_distance(past_judged(job, report));
        },
        PhaseView::Printing(media) => {
            lemma_begun_distance(past_printed(job, media, event->refused));
        },
        _ => {},
    }
}

/// Where a job stands, without what is promised of a whole [`Job`].
struct State {
    tasks: Vec<Task>,
    at: usize,
    phase: Phase,
    /// The task whose browser is running.
    running: Option<usize>,
    measured: Vec<String>,
    printed: Vec<usize>,
    outcomes: Outcomes,
}

spec fn indices(list: Seq<usize>) -> Seq<int> {
    list.map_values(|index: usize| index as int)
}

impl State {
    spec fn shown(&self) -> JobView {
        JobView {
            tasks: tasks_of(self.tasks@),
            at: self.at as int,
            phase: self.phase@,
            running: match self.running {
                Some(index) => Some(self.tasks@[index as int].launch@),
                None => None,
            },
            measured: texts(self.measured@),
            printed: indices(self.printed@),
            outcomes: self.outcomes@,
        }
    }

    spec fn holds(&self) -> bool {
        match self.running {
            Some(index) => index < self.tasks@.len(),
            None => true,
        }
    }
}

fn first_table(tasks: &Vec<Task>) -> (at: usize)
    ensures
        at == table_from(tasks_of(tasks@), 0),
{
    let ghost all = tasks_of(tasks@);
    let size: usize = tasks.len();
    let mut at: usize = 0;
    while at < size
        invariant
            at <= size == tasks@.len(),
            all == tasks_of(tasks@),
            table_from(all, 0) == table_from(all, at as int),
        decreases size - at,
    {
        assert(all[at as int] == tasks@[at as int]@);
        if tasks[at].table {
            return at;
        }
        at = at + 1;
    }
    at
}

fn end(state: State) -> (step: (State, Action))
    requires
        state.holds(),
    ensures
        step.0.holds(),
        (step.0.shown(), step.1@) == ended(state.shown()),
{
    let mut state = state;
    let table = first_table(&state.tasks);
    let size: usize = state.tasks.len();
    let tables: bool = table < size;
    proof {
        lemma_table_from(tasks_of(state.tasks@), 0);
    }
    if let Some(error) = state.outcomes.nothing_left(state.printed.len(), size - table) {
        state.phase = Phase::Over;
        return (state, Action::Fail(error));
    }
    if tables && state.running.is_none() {
        state.phase = Phase::Tables;
        return (state, Action::Launch(table));
    }
    state.phase = Phase::Over;
    (state, Action::Finish)
}

fn turn_to_document(state: State) -> (step: (State, Action))
    requires
        state.holds(),
        state.at < state.tasks@.len(),
    ensures
        step.0.holds(),
        (step.0.shown(), step.1@) == document_step(state.shown()),
{
    let mut state = state;
    let at = state.at;
    assert(tasks_of(state.tasks@)[at as int] == state.tasks@[at as int]@);
    if state.tasks[at].missing.is_some() {
        state.phase = Phase::Opening;
        (state, Action::Open(at))
    } else {
        state.phase = Phase::Loading;
        (state, Action::Load(at))
    }
}

fn is_unmeasured(measured: &Vec<String>, url: &Option<String>) -> (yes: bool)
    ensures
        yes == (maybe(*url) is Some && !texts(measured@).contains(maybe(*url)->0)),
{
    match url {
        Some(url) => !contains_text(measured, url),
        None => false,
    }
}

fn turn_to_footer(state: State) -> (step: (State, Action))
    requires
        state.holds(),
        state.at < state.tasks@.len(),
    ensures
        step.0.holds(),
        (step.0.shown(), step.1@) == footer_step(state.shown()),
{
    let mut state = state;
    let at = state.at;
    assert(tasks_of(state.tasks@)[at as int] == state.tasks@[at as int]@);
    if is_unmeasured(&state.measured, &state.tasks[at].footer) {
        state.phase = Phase::Measuring(Edge::Footer);
        (state, Action::Measure(at, Edge::Footer))
    } else {
        turn_to_document(state)
    }
}

fn turn_to_header(state: State) -> (step: (State, Action))
    requires
        state.holds(),
        state.at < state.tasks@.len(),
    ensures
        step.0.holds(),
        (step.0.shown(), step.1@) == header_step(state.shown()),
{
    let mut state = state;
    let at = state.at;
    assert(tasks_of(state.tasks@)[at as int] == state.tasks@[at as int]@);
    if is_unmeasured(&state.measured, &state.tasks[at].header) {
        state.phase = Phase::Measuring(Edge::Header);
        (state, Action::Measure(at, Edge::Header))
    } else {
        turn_to_footer(state)
    }
}

fn turn_to_browser(state: State) -> (step: (State, Action))
    requires
        state.holds(),
        state.at < state.tasks@.len(),
    ensures
        step.0.holds(),
        (step.0.shown(), step.1@) == browser_step(state.shown()),
{
    let mut state = state;
    let at = state.at;
    assert(tasks_of(state.tasks@)[at as int] == state.tasks@[at as int]@);
    match state.running {
        Some(index) => {
            if needs_browser(Some(&state.tasks[index].launch), &state.tasks[at].launch) {
                state.phase = Phase::Closing;
                (state, Action::Close)
            } else {
                turn_to_header(state)
            }
        },
        None => {
            state.phase = Phase::Launching;
            (state, Action::Launch(at))
        },
    }
}

fn begin_object(from: State) -> (step: (State, Action))
    requires
        from.holds(),
        from.at <= from.tasks@.len(),
    ensures
        step.0.holds(),
        (step.0.shown(), step.1@) == begun(from.shown()),
{
    let ghost start = from.shown();
    let mut state = from;
    let size: usize = state.tasks.len();
    while state.at < size
        invariant
            state.holds(),
            state.at <= size == state.tasks@.len(),
            start == from.shown(),
            begun(state.shown()) == begun(start),
        decreases size - state.at,
    {
        let at = state.at;
        let ghost here = state.shown();
        assert(tasks_of(state.tasks@)[at as int] == state.tasks@[at as int]@);
        if !state.tasks[at].table {
            return turn_to_browser(state);
        }
        state.at = at + 1;
        assert(state.shown() == (JobView { at: here.at + 1, ..here }));
    }
    end(state)
}

fn judge(state: State, report: LoadReport, rejected: bool) -> (step: (State, Action))
    requires
        state.holds(),
        state.at < state.tasks@.len(),
    ensures
        step.0.holds(),
        (step.0.shown(), step.1@) == judged_step(state.shown(), report@, rejected),
{
    let mut state = state;
    let at = state.at;
    let ghost before = state.shown();
    assert(tasks_of(state.tasks@)[at as int] == state.tasks@[at as int]@);
    if rejected {
        let url = state.tasks[at].url.clone();
        state.phase = Phase::Over;
        return (state, Action::Fail(ConvertError::Browser(Error::Credentials { url })));
    }
    let size: usize = state.tasks.len();
    let handling = state.tasks[at].handling;
    let back_links = state.tasks[at].back_links;
    let judgement = state.outcomes.judge(&report, handling);
    let headings = back_links && !report.navigation_failed;
    match judgement {
        Judgement::Abort => {
            state.phase = Phase::Over;
            let error = match report.document {
                Some(failed) => ConvertError::DocumentFailed(failed),
                None => ConvertError::Unsupported(String::new()),
            };
            (state, Action::Fail(error))
        },
        Judgement::Skip => {
            state.at = at + 1;
            state.phase = Phase::Over;
            assert(state.shown() == past_judged(before, report@));
            begin_object(state)
        },
        Judgement::PrintBlank => {
            state.phase = Phase::Blanking(report.media);
            (state, Action::Blank(at))
        },
        Judgement::Print => {
            state.phase = Phase::Printing(report.media);
            (state, Action::Print { index: at, headings })
        },
    }
}

/// A conversion as it works through its documents.
pub struct Job {
    state: State,
}

impl View for Job {
    type V = JobView;

    closed spec fn view(&self) -> JobView {
        self.state.shown()
    }
}

impl Job {
    #[verifier::type_invariant]
    spec fn stands(self) -> bool {
        self.state.holds() && sound(self.state.shown())
    }

    /// Begin with the first object.
    pub fn new(tasks: Vec<Task>) -> (step: (Job, Action))
        ensures
            (step.0@, step.1@) == begun(fresh(tasks_of(tasks@))),
            sound(step.0@),
    {
        let ghost all = tasks_of(tasks@);
        let state = State {
            tasks,
            at: 0,
            phase: Phase::Over,
            running: None,
            measured: Vec::new(),
            printed: Vec::new(),
            outcomes: Outcomes::new(),
        };
        let size: usize = state.tasks.len();
        assert(texts(state.measured@) =~= Seq::empty());
        assert(indices(state.printed@) =~= Seq::empty());
        assert(state.shown() == fresh(all));
        let (state, action) = begin_object(state);
        proof {
            law_a_job_begins_sound(all);
        }
        (Job { state }, action)
    }

    /// Whether the job waits for such an event.
    pub fn awaits(&self, event: &Event) -> (yes: bool)
        ensures
            yes == awaits(self@.phase, event@),
    {
        match self.state.phase {
            Phase::Loading => matches!(event, Event::Loaded { .. }),
            Phase::Printing(_) => matches!(event, Event::Printed { .. }),
            Phase::Over => false,
            _ => matches!(event, Event::Done),
        }
    }

    /// Take in what came of the last action, and say what is to be done next.
    pub fn next(self, event: Event) -> (step: (Job, Action))
        requires
            awaits(self@.phase, event@),
        ensures
            (step.0@, step.1@) == after(self@, event@),
            sound(step.0@),
    {
        proof {
            use_type_invariant(&self);
            law_a_job_stays_sound(self@, event@);
        }
        let (state, action) = advance(self.state, event);
        (Job { state }, action)
    }

    /// The objects that were printed.
    pub fn printed(&self) -> (printed: &Vec<usize>)
        ensures
            printed@.map_values(|index: usize| index as int) == self@.printed,
    {
        &self.state.printed
    }

    /// What the conversion met with.
    pub fn outcomes(&self) -> (outcomes: &Outcomes)
        ensures
            outcomes@ == self@.outcomes,
    {
        &self.state.outcomes
    }

    /// What the conversion met with, once the job is over.
    pub fn into_outcomes(self) -> (outcomes: Outcomes)
        ensures
            outcomes@ == self@.outcomes,
    {
        self.state.outcomes
    }
}

fn advance(state: State, event: Event) -> (step: (State, Action))
    requires
        state.holds(),
        sound(state.shown()),
        awaits(state.shown().phase, event@),
    ensures
        step.0.holds(),
        (step.0.shown(), step.1@) == after(state.shown(), event@),
{
    let ghost before = state.shown();
    let ghost happened = event@;
    let mut state = state;
    let at = state.at;
    let mut phase = Phase::Over;
    std::mem::swap(&mut phase, &mut state.phase);
    assert(at < state.tasks@.len() ==> before.tasks[at as int] == state.tasks@[at as int]@);
    match phase {
        Phase::Closing => {
            state.running = None;
            state.phase = Phase::Launching;
            (state, Action::Launch(at))
        },
        Phase::Launching => {
            state.running = Some(at);
            state.phase = Phase::Launching;
            turn_to_header(state)
        },
        Phase::Measuring(edge) => {
            let url = match edge {
                Edge::Header => crate::settings::copy_maybe(&state.tasks[at].header),
                Edge::Footer => crate::settings::copy_maybe(&state.tasks[at].footer),
            };
            if let Some(url) = url {
                let ghost known = texts(state.measured@);
                let ghost added = url@;
                state.measured.push(url);
                assert(texts(state.measured@) =~= known.push(added));
            }
            state.phase = Phase::Measuring(edge);
            match edge {
                Edge::Header => turn_to_footer(state),
                Edge::Footer => turn_to_document(state),
            }
        },
        Phase::Opening => {
            let error = match state.tasks[at].missing {
                Some(error) => error,
                None => NetworkError::UnknownContent,
            };
            let report = missing_report(&state.tasks[at].url, error);
            state.phase = Phase::Opening;
            judge(state, report, false)
        },
        Phase::Loading => {
            state.phase = Phase::Loading;
            match event {
                Event::Loaded { report, rejected } => judge(state, report, rejected),
                _ => (state, Action::Finish),
            }
        },
        Phase::Blanking(media) => {
            state.phase = Phase::Printing(media);
            (state, Action::Print { index: at, headings: false })
        },
        Phase::Printing(media) => {
            let ghost kept = failures_of(media@);
            state.outcomes.note_media(at, media);
            if let Event::Printed { refused } = event {
                state.outcomes.refuse(refused);
            }
            let ghost done = indices(state.printed@);
            state.printed.push(at);
            assert(indices(state.printed@) =~= done.push(at as int));
            state.at = at + 1;
            assert(state.shown() == past_printed(before, kept, happened->refused));
            begin_object(state)
        },
        Phase::Tables => {
            let table = first_table(&state.tasks);
            state.running = Some(table);
            state.phase = Phase::Over;
            (state, Action::Finish)
        },
        Phase::Over => (state, Action::Finish),
    }
}

/// What a job does with a document: a browser that was started otherwise is closed and one
/// that suits it is started; then its header is measured and then its footer, each where it
/// is a document that was not measured before; and then it is loaded, or opened where it is
/// not there.
pub proof fn law_what_a_job_does_with_a_document(job: JobView)
    requires
        0 <= job.at < job.tasks.len(),
        !job.tasks[job.at].table,
    ensures
        ({
            let task = job.tasks[job.at];
            let next = begun(job).1;
            let header = task.header is Some && !job.measured.contains(task.header->0);
            let footer = task.footer is Some && !job.measured.contains(task.footer->0);
            let suits = job.running == Some(task.launch);
            &&& job.running is None ==> next == ActionView::Launch(job.at)
            &&& job.running is Some && !suits ==> next is Close
            &&& suits && header ==> next == ActionView::Measure(job.at, Edge::Header)
            &&& suits && !header && footer ==> next == ActionView::Measure(job.at, Edge::Footer)
            &&& suits && !header && !footer && task.missing is Some ==> next == ActionView::Open(
                job.at,
            )
            &&& suits && !header && !footer && task.missing is None ==> next == ActionView::Load(
                job.at,
            )
            &&& begun(job).0.at == job.at
            &&& begun(job).0.printed == job.printed
            &&& begun(job).0.outcomes == job.outcomes
            &&& begun(job).0.measured == job.measured
        }),
{
}

/// Tables of contents are passed over until the documents are done.
pub proof fn law_tables_are_passed_over(job: JobView, to: int)
    requires
        0 <= job.at <= to <= job.tasks.len(),
        forall|i: int| job.at <= i < to ==> (#[trigger] job.tasks[i]).table,
    ensures
        begun(job) == begun(JobView { at: to, ..job }),
    decreases to - job.at,
{
    if job.at < to {
        law_tables_are_passed_over(JobView { at: job.at + 1, ..job }, to);
    } else {
        assert(JobView { at: to, ..job } == job);
    }
}

/// Past the last object: a job that printed nothing and has no table fails with what was
/// left out; tables get the browser of the first of them where none is running; and
/// otherwise the file is finished.
pub proof fn law_how_a_job_finishes(job: JobView, table: int)
    requires
        job.at >= job.tasks.len(),
        0 <= table <= job.tasks.len(),
        forall|i: int| 0 <= i < table ==> !(#[trigger] job.tasks[i]).table,
        table < job.tasks.len() ==> job.tasks[table].table,
    ensures
        table == job.tasks.len() && job.printed.len() == 0 ==> begun(job).1 == ActionView::Fail(
            FailureView::NothingLeft(job.outcomes.skipped),
        ),
        table < job.tasks.len() && job.running is None ==> begun(job).1 == ActionView::Launch(table),
        table < job.tasks.len() && job.running is Some ==> begun(job).1 is Finish,
        table == job.tasks.len() && job.printed.len() > 0 ==> begun(job).1 is Finish,
{
    lemma_first_table(job.tasks, 0, table);
}

proof fn lemma_first_table(tasks: Seq<TaskView>, from: int, table: int)
    requires
        0 <= from <= table <= tasks.len(),
        forall|i: int| from <= i < table ==> !(#[trigger] tasks[i]).table,
        table < tasks.len() ==> tasks[table].table,
    ensures
        table_from(tasks, from) == table,
    decreases table - from,
{
    if from < table {
        assert(!tasks[from].table);
        lemma_first_table(tasks, from + 1, table);
    }
}

/// Once a document is loaded: rejected credentials end the job; a failure ends it, leaves
/// the document out or has an empty page printed, as the document asks; and otherwise it is
/// printed, with its headings where it links back.
pub proof fn law_what_follows_a_load(job: JobView, event: EventView)
    requires
        job.phase is Loading,
        event is Loaded,
    ensures
        ({
            let task = job.tasks[job.at];
            let report = event->report;
            let (next, action) = after(job, event);
            &&& event->rejected ==> action == ActionView::Fail(FailureView::Credentials(task.url))
            &&& !event->rejected && report.document is None ==> action == (ActionView::Print {
                index: job.at,
                headings: task.back_links && !report.navigation_failed,
            }) && next.phase == PhaseView::Printing(report.media)
            &&& !event->rejected && report.document is Some && task.handling
                == LoadErrorHandling::Abort ==> action == ActionView::Fail(
                FailureView::Document(report.document->0),
            )
            &&& !event->rejected && report.document is Some && task.handling
                == LoadErrorHandling::Ignore && report.navigation_failed ==> action
                == ActionView::Blank(job.at)
            &&& !event->rejected && report.document is Some && task.handling
                == LoadErrorHandling::Ignore && !report.navigation_failed ==> action == (
            ActionView::Print { index: job.at, headings: task.back_links })
            &&& !event->rejected && report.document is Some && task.handling
                == LoadErrorHandling::Skip ==> after(job, event) == begun(
                JobView {
                    at: job.at + 1,
                    phase: PhaseView::Over,
                    outcomes: outcomes_after(job.outcomes, report, task.handling),
                    ..job
                },
            )
        }),
{
}

/// A document that is not there counts as one that the browser could not go to, with the
/// failure that was found.
pub proof fn law_a_document_that_is_not_there(job: JobView, event: EventView)
    requires
        job.phase is Opening,
        job.tasks[job.at].missing is Some,
    ensures
        ({
            let task = job.tasks[job.at];
            let failed = FailedView { url: task.url, error: task.missing->0, http_status: 0 };
            let action = after(job, event).1;
            &&& task.handling == LoadErrorHandling::Abort ==> action == ActionView::Fail(
                FailureView::Document(failed),
            )
            &&& task.handling == LoadErrorHandling::Ignore ==> action == ActionView::Blank(job.at)
                && after(job, event).0.outcomes.failed == job.outcomes.failed.push(failed)
        }),
{
}

/// A document that was printed is kept with what its requests met with, and the job turns
/// to the next; an empty page is printed without headings.
pub proof fn law_what_follows_a_print(job: JobView, event: EventView)
    ensures
        job.phase is Printing && event is Printed ==> after(job, event) == begun(
            JobView {
                at: job.at + 1,
                phase: PhaseView::Over,
                printed: job.printed.push(job.at),
                outcomes: OutcomesView {
                    refused: job.outcomes.refused + event->refused,
                    media: job.outcomes.media.push((job.at as usize, job.phase->Printing_0)),
                    ..job.outcomes
                },
                ..job
            },
        ),
        job.phase is Blanking ==> after(job, event).1 == (ActionView::Print {
            index: job.at,
            headings: false,
        }) && after(job, event).0.phase == PhaseView::Printing(job.phase->Blanking_0),
        job.phase is Closing ==> after(job, event).1 == ActionView::Launch(job.at) && after(
            job,
            event,
        ).0.running is None,
        job.phase is Launching && 0 <= job.at < job.tasks.len() && !job.tasks[job.at].table
            ==> after(job, event) == begun(
            JobView { running: Some(job.tasks[job.at].launch), ..job },
        ),
        job.phase == PhaseView::Measuring(Edge::Header) && 0 <= job.at < job.tasks.len() ==> after(
            job,
            event,
        ).0.measured == job.measured.push(job.tasks[job.at].header->0),
        job.phase == PhaseView::Measuring(Edge::Footer) && 0 <= job.at < job.tasks.len() ==> after(
            job,
            event,
        ).0.measured == job.measured.push(job.tasks[job.at].footer->0) && !(after(job, event).1
            is Measure),
        job.phase is Tables ==> after(job, event).1 is Finish,
{
}

/// What a job knows of an object comes from the object's own settings.
pub proof fn law_what_a_job_knows_of_an_object(
    object: ObjectSettingsView,
    launch: LaunchOptionsView,
    url: Seq<char>,
    missing: Option<NetworkError>,
    header: Option<Seq<char>>,
    footer: Option<Seq<char>>,
)
    ensures
        ({
            let task = task_of(object, launch, url, missing, header, footer);
            &&& task.table <==> object.kind == ObjectKind::Toc
            &&& task.launch == launch
            &&& task.url == url
            &&& task.missing == missing
            &&& task.header == header
            &&& task.footer == footer
            &&& task.back_links == object.toc.back_links
            &&& task.handling == object.load.on_document_error
        }),
{
}

}
