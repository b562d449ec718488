use rchtmltopdf::error::Error;
use rchtmltopdf::message::Event;
use rchtmltopdf::network::NetworkError;
use rchtmltopdf::plan::{Injection, LoadPlan, Settle};
use rchtmltopdf::render::{
    apply_traffic, inject_link, inject_sheet, navigated, next_stage, patience, script_outcome,
    status_reached, thrown, uninjected, InFlight, Progress, Stage, Watch,
};

fn event(method: &str, params: &str) -> Event {
    Event {
        method: method.into(),
        params: params.into(),
        session_id: None,
    }
}

#[test]
fn a_request_counts_until_it_finishes() {
    let mut in_flight = InFlight::new();
    apply_traffic(
        &event(
            "Network.requestWillBeSent",
            r#"{ "requestId": "R1", "request": { "url": "https://example.com/a.css" } }"#,
        ),
        &mut in_flight,
        &mut Watch::new(),
    );
    assert_eq!(in_flight.len(), 1);
    apply_traffic(
        &event("Network.loadingFinished", r#"{ "requestId": "R1" }"#),
        &mut in_flight,
        &mut Watch::new(),
    );
    assert!(in_flight.is_empty());
}

#[test]
fn a_failed_request_also_stops_counting() {
    let mut in_flight = InFlight::new();
    apply_traffic(
        &event(
            "Network.requestWillBeSent",
            r#"{ "requestId": "R1", "request": { "url": "https://example.com/gone.png" } }"#,
        ),
        &mut in_flight,
        &mut Watch::new(),
    );
    apply_traffic(
        &event("Network.loadingFailed", r#"{ "requestId": "R1" }"#),
        &mut in_flight,
        &mut Watch::new(),
    );
    assert!(
        in_flight.is_empty(),
        "a 404 must not hold the page open for ever"
    );
}

#[test]
fn inline_data_is_not_counted() {
    let mut in_flight = InFlight::new();
    for url in ["data:text/css,body{}", "blob:https://example.com/abc"] {
        apply_traffic(
            &event(
                "Network.requestWillBeSent",
                &format!(r#"{{ "requestId": "R1", "request": {{ "url": "{url}" }} }}"#),
            ),
            &mut in_flight,
            &mut Watch::new(),
        );
    }
    assert!(in_flight.is_empty());
}

#[test]
fn a_completion_for_something_never_started_is_harmless() {
    let mut in_flight = InFlight::new();
    apply_traffic(
        &event("Network.loadingFinished", r#"{ "requestId": "ghost" }"#),
        &mut in_flight,
        &mut Watch::new(),
    );
    apply_traffic(
        &event(
            "Network.requestWillBeSent",
            r#"{ "requestId": "R1", "request": { "url": "https://example.com/a" } }"#,
        ),
        &mut in_flight,
        &mut Watch::new(),
    );
    assert_eq!(in_flight.len(), 1, "the real request is still outstanding");
}

#[test]
fn unrelated_events_are_ignored() {
    let mut in_flight = InFlight::new();
    apply_traffic(
        &event("Page.loadEventFired", "{}"),
        &mut in_flight,
        &mut Watch::new(),
    );
    apply_traffic(
        &event("Runtime.consoleAPICalled", r#"{ "requestId": "R1" }"#),
        &mut in_flight,
        &mut Watch::new(),
    );
    assert!(in_flight.is_empty());
}

#[test]
fn only_the_documents_own_failure_is_a_navigation_failure() {
    let mut in_flight = InFlight::new();
    let mut watch = Watch::new();
    apply_traffic(
        &event(
            "Network.requestWillBeSent",
            r#"{
                "requestId": "DOC",
                "type": "Document",
                "request": { "url": "https://example.com/a" }
            }"#,
        ),
        &mut in_flight,
        &mut watch,
    );
    apply_traffic(
        &event(
            "Network.requestWillBeSent",
            r#"{
                "requestId": "IMG",
                "type": "Image",
                "request": { "url": "https://example.com/a.png" }
            }"#,
        ),
        &mut in_flight,
        &mut watch,
    );
    apply_traffic(
        &event(
            "Network.loadingFailed",
            r#"{ "requestId": "IMG", "errorText": "net::ERR_FAILED" }"#,
        ),
        &mut in_flight,
        &mut watch,
    );
    assert!(watch.report.document.is_none());
    apply_traffic(
        &event(
            "Network.loadingFailed",
            r#"{ "requestId": "DOC", "errorText": "net::ERR_PROXY_CONNECTION_FAILED" }"#,
        ),
        &mut in_flight,
        &mut watch,
    );
    assert_eq!(
        watch.report.document.as_ref().map(|failed| failed.error),
        Some(NetworkError::ConnectionRefused)
    );
    assert_eq!(watch.report.media.len(), 1);
    assert_eq!(watch.report.media[0].error, NetworkError::UnknownContent);
    assert_eq!(
        watch.report.media[0].message(),
        "https://example.com/a.png (UnknownContentError)"
    );
}

#[test]
fn a_later_document_request_does_not_steal_the_first() {
    let mut in_flight = InFlight::new();
    let mut watch = Watch::new();
    for id in ["FIRST", "IFRAME"] {
        apply_traffic(
            &event(
                "Network.requestWillBeSent",
                &format!(
                    r#"{{
                        "requestId": "{id}",
                        "type": "Document",
                        "request": {{ "url": "https://example.com/a" }}
                    }}"#
                ),
            ),
            &mut in_flight,
            &mut watch,
        );
    }
    assert_eq!(watch.document.as_deref(), Some("FIRST"));
}

#[test]
fn every_stage_can_be_described() {
    for stage in [
        Stage::Navigating,
        Stage::AwaitingLoad,
        Stage::Injecting,
        Stage::AwaitingNetworkIdle,
        Stage::AwaitingFonts,
        Stage::AwaitingWindowStatus,
        Stage::Delaying,
        Stage::RunningScripts,
        Stage::Settled,
    ] {
        assert!(!stage.describe().is_empty());
    }
    assert_eq!(
        format!("timed out while {}", Stage::AwaitingNetworkIdle.describe()),
        "timed out while waiting for the network to go idle"
    );
}

#[test]
fn progress_starts_at_the_beginning_and_moves() {
    let mut progress = Progress::new();
    assert_eq!(progress.current(), Stage::Navigating);
    progress.enter(Stage::AwaitingFonts);
    assert_eq!(progress.current(), Stage::AwaitingFonts);
}

#[test]
fn expiry_names_the_rung_the_page_was_on() {
    let mut progress = Progress::new();
    progress.enter_for_test(Stage::AwaitingNetworkIdle);
    assert_eq!(
        progress.expired(50).message(),
        "timed out after 0s while waiting for the network to go idle"
    );
    assert_eq!(
        progress.expired(30000).message(),
        "timed out after 30s while waiting for the network to go idle"
    );
}

#[test]
fn a_failing_status_and_a_repeated_failure_are_reported_once() {
    let mut in_flight = InFlight::new();
    let mut watch = Watch::new();
    for id in ["A", "B"] {
        apply_traffic(
            &event(
                "Network.requestWillBeSent",
                &format!(r#"{{"requestId":"{id}","request":{{"url":"https://x/a.png"}}}}"#),
            ),
            &mut in_flight,
            &mut watch,
        );
        apply_traffic(
            &event(
                "Network.responseReceived",
                &format!(r#"{{"requestId":"{id}","response":{{"status":404}}}}"#),
            ),
            &mut in_flight,
            &mut watch,
        );
    }
    assert_eq!(in_flight.len(), 2, "a response is not the end of a request");
    assert_eq!(watch.report.media.len(), 1);
    assert_eq!(watch.report.media[0].error, NetworkError::ContentNotFound);
    assert_eq!(watch.report.media[0].http_status, 404);
    apply_traffic(
        &event("Network.responseReceived", r#"{"requestId":"A","response":{}}"#),
        &mut in_flight,
        &mut watch,
    );
    assert_eq!(watch.report.media.len(), 1, "no status is a good one");
}

#[test]
fn the_browsers_own_icon_is_not_missed() {
    let mut in_flight = InFlight::new();
    let mut watch = Watch::new();
    apply_traffic(
        &event(
            "Network.requestWillBeSent",
            r#"{"requestId":"I","request":{"url":"https://x/favicon.ico"}}"#,
        ),
        &mut in_flight,
        &mut watch,
    );
    apply_traffic(
        &event("Network.loadingFailed", r#"{"requestId":"I","errorText":"net::ERR_FAILED"}"#),
        &mut in_flight,
        &mut watch,
    );
    assert!(watch.report().media.is_empty());
}

#[test]
fn the_network_is_quiet_only_when_nothing_is_under_way() {
    let mut in_flight = InFlight::new();
    assert_eq!(patience(&in_flight), Some(500));
    in_flight.insert("R1");
    in_flight.insert("R1");
    assert_eq!(patience(&in_flight), None);
    in_flight.remove("R1");
    assert_eq!(patience(&in_flight), Some(500));
}

fn ladder(plan: &LoadPlan) -> Vec<Stage> {
    let mut stages = vec![Stage::Navigating];
    while stages[stages.len() - 1] != Stage::Settled {
        stages.push(next_stage(stages[stages.len() - 1], plan));
    }
    stages
}

#[test]
fn stages_with_nothing_to_do_are_left_out() {
    let plain = LoadPlan {
        inject: None,
        settle: Settle::Delay(200),
        scripts: Vec::new(),
    };
    assert_eq!(
        ladder(&plain),
        [
            Stage::Navigating,
            Stage::AwaitingLoad,
            Stage::AwaitingNetworkIdle,
            Stage::AwaitingFonts,
            Stage::Delaying,
            Stage::Settled,
        ]
    );
    let full = LoadPlan {
        inject: Some(Injection::File("a.css".into())),
        settle: Settle::WindowStatus("ready".into()),
        scripts: vec!["go()".into()],
    };
    assert_eq!(
        ladder(&full),
        [
            Stage::Navigating,
            Stage::AwaitingLoad,
            Stage::Injecting,
            Stage::AwaitingNetworkIdle,
            Stage::AwaitingFonts,
            Stage::AwaitingWindowStatus,
            Stage::RunningScripts,
            Stage::Settled,
        ]
    );
}

#[test]
fn an_unreachable_url_is_reported_as_the_documents_own_failure() {
    let refused = navigated("http://nowhere/", r#"{"errorText":"net::ERR_NAME_NOT_RESOLVED"}"#);
    let report = refused.expect("the browser could not go there");
    assert!(report.navigation_failed);
    let failed = report.document.expect("the document failed");
    assert_eq!(failed.url, "http://nowhere/");
    assert_eq!(failed.error, NetworkError::HostNotFound);
    assert_eq!(failed.http_status, 0);
    assert!(navigated("http://here/", r#"{"frameId":"F"}"#).is_none());
}

#[test]
fn a_stylesheet_is_put_in_as_a_script_string() {
    assert_eq!(
        inject_sheet("a:after { content: \"x\" }\n"),
        "(() => { const sheet = document.createElement('style'); sheet.textContent = \
         \"a:after { content: \\\"x\\\" }\\n\"; document.head.appendChild(sheet); })()"
    );
    assert_eq!(
        inject_link("https://x/a.css"),
        "(() => { const link = document.createElement('link'); link.rel = 'stylesheet'; \
         link.href = \"https://x/a.css\"; document.head.appendChild(link); })()"
    );
    let error = uninjected(&Injection::Link("https://x/a.css".into()), "no head".into());
    assert_eq!(
        error.message(),
        "could not read the user stylesheet https://x/a.css: no head"
    );
}

#[test]
fn an_exception_is_described_as_well_as_it_can_be() {
    let described =
        r#"{"exceptionDetails":{"text":"Uncaught","exception":{"description":"Error: no"}}}"#;
    assert_eq!(thrown(described).as_deref(), Some("Error: no"));
    let text = r#"{"exceptionDetails":{"text":"Uncaught"}}"#;
    assert_eq!(thrown(text).as_deref(), Some("Uncaught"));
    let bare = r#"{"exceptionDetails":{}}"#;
    assert_eq!(thrown(bare).as_deref(), Some("the script threw"));
    assert_eq!(thrown(r#"{"result":{"value":1}}"#), None);
    assert!(script_outcome("go()", "{}").is_ok());
    assert_eq!(
        script_outcome("go()", bare),
        Err(Error::Script {
            source: "go()".into(),
            message: "the script threw".into(),
        })
    );
}

#[test]
fn a_status_is_reached_when_it_is_the_one_waited_for() {
    assert!(status_reached(r#"{"result":{"value":"ready"}}"#, "ready"));
    assert!(!status_reached(r#"{"result":{"value":"almost"}}"#, "ready"));
    assert!(!status_reached("{}", "ready"));
}

#[test]
fn failures_are_reported_in_the_order_they_were_asked_for() {
    let mut in_flight = InFlight::new();
    let mut watch = Watch::new();
    for (id, url) in [("A", "https://x/a.png"), ("B", "https://x/b.png"), ("C", "https://x/c.png")] {
        apply_traffic(
            &event(
                "Network.requestWillBeSent",
                &format!(r#"{{"requestId":"{id}","request":{{"url":"{url}"}}}}"#),
            ),
            &mut in_flight,
            &mut watch,
        );
    }
    for id in ["Z", "B", "C", "A"] {
        apply_traffic(
            &event(
                "Network.loadingFailed",
                &format!(r#"{{"requestId":"{id}","errorText":"net::ERR_FAILED"}}"#),
            ),
            &mut in_flight,
            &mut watch,
        );
    }
    let urls: Vec<&str> = watch.report.media.iter().map(|failed| failed.url.as_str()).collect();
    assert_eq!(urls, ["https://x/a.png", "https://x/b.png", "https://x/c.png", ""]);
    assert!(in_flight.is_empty());
}
