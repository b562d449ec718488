use rchtmltopdf::band::Edge;
use rchtmltopdf::convert::ConvertError;
use rchtmltopdf::document::Input;
use rchtmltopdf::error::Error;
use rchtmltopdf::intercept::Refusal;
use rchtmltopdf::job::{Action, Event, Job, Task};
use rchtmltopdf::launch::LaunchOptions;
use rchtmltopdf::network::NetworkError;
use rchtmltopdf::render::{Failed, LoadReport};
use rchtmltopdf::settings::{LoadErrorHandling, ObjectKind, ObjectSettings};

fn task(url: &str) -> Task {
    let object = ObjectSettings::page(Input::classify(url));
    Task::new(
        &object,
        LaunchOptions::default(),
        url.into(),
        None,
        None,
        None,
    )
}

fn table() -> Task {
    let mut object = ObjectSettings::page(Input::Stdin);
    object.kind = ObjectKind::Toc;
    object.input = None;
    let task = Task::new(
        &object,
        LaunchOptions::default(),
        "file:///toc.html".into(),
        None,
        None,
        None,
    );
    assert!(task.table);
    task
}

fn loaded() -> Event {
    Event::Loaded {
        report: LoadReport::default(),
        rejected: false,
    }
}

fn broken(navigation_failed: bool) -> Event {
    Event::Loaded {
        report: LoadReport {
            document: Some(Failed {
                url: "http://x/".into(),
                error: NetworkError::ContentNotFound,
                http_status: 404,
            }),
            navigation_failed,
            media: vec![],
        },
        rejected: false,
    }
}

fn printed() -> Event {
    Event::Printed { refused: vec![] }
}

fn step(job: Job, event: Event) -> (Job, Action) {
    assert!(job.awaits(&event), "{event:?}");
    job.next(event)
}

#[test]
fn one_document_is_loaded_and_printed() {
    let (job, action) = Job::new(vec![task("http://a/")]);
    assert_eq!(action, Action::Launch(0));
    let (job, action) = step(job, Event::Done);
    assert_eq!(action, Action::Load(0));
    assert!(!job.awaits(&Event::Done));
    let (job, action) = step(job, loaded());
    assert_eq!(
        action,
        Action::Print {
            index: 0,
            headings: false
        }
    );
    let (job, action) = step(
        job,
        Event::Printed {
            refused: vec![Refusal {
                url: "file:///x".into(),
                reason: "no",
            }],
        },
    );
    assert_eq!(action, Action::Finish);
    assert_eq!(job.printed(), &vec![0]);
    assert_eq!(job.outcomes().refused.len(), 1);
    assert_eq!(job.into_outcomes().media, [(0, vec![])]);
}

#[test]
fn a_browser_is_shared_until_an_object_needs_another() {
    let mut second = task("http://b/");
    second.launch.no_images = true;
    let (job, _) = Job::new(vec![task("http://a/"), second]);
    let (job, _) = step(job, Event::Done);
    let (job, _) = step(job, loaded());
    let (job, action) = step(job, printed());
    assert_eq!(action, Action::Close);
    let (job, action) = step(job, Event::Done);
    assert_eq!(action, Action::Launch(1));
    let (_, action) = step(job, Event::Done);
    assert_eq!(action, Action::Load(1));

    let (job, _) = Job::new(vec![task("http://a/"), task("http://b/")]);
    let (job, _) = step(job, Event::Done);
    let (job, _) = step(job, loaded());
    let (_, action) = step(job, printed());
    assert_eq!(action, Action::Load(1));
}

#[test]
fn a_band_document_is_measured_once() {
    let banded = || {
        let mut task = task("http://a/");
        task.header = Some("file:///h.html".into());
        task.footer = Some("file:///f.html".into());
        task
    };
    let (job, _) = Job::new(vec![banded(), banded()]);
    let (job, action) = step(job, Event::Done);
    assert_eq!(action, Action::Measure(0, Edge::Header));
    let (job, action) = step(job, Event::Done);
    assert_eq!(action, Action::Measure(0, Edge::Footer));
    let (job, action) = step(job, Event::Done);
    assert_eq!(action, Action::Load(0));
    let (job, _) = step(job, loaded());
    let (_, action) = step(job, printed());
    assert_eq!(action, Action::Load(1));
}

#[test]
fn the_handling_decides_what_becomes_of_a_document() {
    let at_load = |handling| {
        let mut first = task("http://x/");
        first.handling = handling;
        let (job, _) = Job::new(vec![first, task("http://b/")]);
        step(job, Event::Done).0
    };
    let (_, action) = step(at_load(LoadErrorHandling::Abort), broken(false));
    assert!(matches!(
        action,
        Action::Fail(ConvertError::DocumentFailed(failed)) if failed.http_status == 404
    ));
    let (job, action) = step(at_load(LoadErrorHandling::Skip), broken(false));
    assert_eq!(action, Action::Load(1));
    assert_eq!(job.outcomes().skipped.len(), 1);
    let (_, action) = step(at_load(LoadErrorHandling::Ignore), broken(false));
    assert!(matches!(action, Action::Print { index: 0, .. }));
    let (job, action) = step(at_load(LoadErrorHandling::Ignore), broken(true));
    assert_eq!(action, Action::Blank(0));
    let (_, action) = step(job, Event::Done);
    assert_eq!(
        action,
        Action::Print {
            index: 0,
            headings: false
        }
    );
}

#[test]
fn rejected_credentials_end_the_conversion() {
    let (job, _) = Job::new(vec![task("http://x/")]);
    let (job, _) = step(job, Event::Done);
    let (job, action) = step(
        job,
        Event::Loaded {
            report: LoadReport::default(),
            rejected: true,
        },
    );
    assert_eq!(
        action,
        Action::Fail(ConvertError::Browser(Error::Credentials {
            url: "http://x/".into()
        }))
    );
    assert!(!job.awaits(&Event::Done));
}

#[test]
fn a_missing_document_is_judged_without_being_loaded() {
    let mut gone = task("file:///gone.html");
    gone.missing = Some(NetworkError::ContentNotFound);
    gone.handling = LoadErrorHandling::Skip;
    let (job, _) = Job::new(vec![gone]);
    let (job, action) = step(job, Event::Done);
    assert_eq!(action, Action::Open(0));
    let (job, action) = step(job, Event::Done);
    assert!(matches!(
        action,
        Action::Fail(ConvertError::NothingLeft(lines)) if lines.len() == 1
    ));
    assert_eq!(job.outcomes().failed.len(), 1);
}

#[test]
fn tables_come_last_and_get_a_browser_of_their_own_if_none_runs() {
    let (job, action) = Job::new(vec![table()]);
    assert_eq!(action, Action::Launch(0));
    let (job, action) = step(job, Event::Done);
    assert_eq!(action, Action::Finish);
    assert!(job.printed().is_empty());

    let (job, action) = Job::new(vec![table(), task("http://a/")]);
    assert_eq!(action, Action::Launch(1));
    let (job, _) = step(job, Event::Done);
    let (job, _) = step(job, loaded());
    let (job, action) = step(job, printed());
    assert_eq!(action, Action::Finish);
    assert_eq!(job.printed(), &vec![1]);

    let (_, action) = Job::new(vec![]);
    assert!(matches!(action, Action::Fail(ConvertError::NothingLeft(_))));
}

#[test]
fn headings_are_measured_where_they_lead_back() {
    let mut object = ObjectSettings::page(Input::classify("http://a/"));
    object.toc.back_links = true;
    let task = Task::new(
        &object,
        LaunchOptions::default(),
        "http://a/".into(),
        None,
        None,
        None,
    );
    let (job, _) = Job::new(vec![task]);
    let (job, _) = step(job, Event::Done);
    let (_, action) = step(job, loaded());
    assert_eq!(
        action,
        Action::Print {
            index: 0,
            headings: true
        }
    );
}
