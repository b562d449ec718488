use rchtmltopdf::file_access::{local_path, FileAccess, Policy, Verdict, NOT_ENABLED, REMOTE};
use rchtmltopdf::input::file_url;
use rchtmltopdf::paths::{components, file_name, inside, join, with_file_name};

/// The files that there are, and how dots and encodings in a path resolve.
struct Fixtures;

const FILES: [&str; 5] = [
    "/srv/pages/doc.html",
    "/srv/pages/style.css",
    "/srv/pages-public/leak.css",
    "/srv/with space/a.css",
    "/srv/secret.txt",
];

impl Fixtures {
    fn url(&self, relative: &str) -> String {
        format!("file:///srv/{relative}")
    }

    /// What the file system finds at the path of a URL.
    fn resolve(&self, url: &str) -> Option<String> {
        let path = local_path(url)?;
        let mut names: Vec<String> = Vec::new();
        for name in components(&path) {
            if name == ".." {
                names.pop();
            } else {
                names.push(name);
            }
        }
        let resolved = format!("/{}", names.join("/"));
        FILES.contains(&resolved.as_str()).then_some(resolved)
    }

    fn about(&self, policy: &Policy, url: &str) -> FileAccess {
        let allowed = policy.allowed.clone();
        policy.about(url, allowed, self.resolve(url))
    }

    fn verdict(&self, access: &FileAccess, url: &str) -> Verdict {
        access.verdict(url, &self.resolve(url))
    }
}

fn policy(enabled: bool, allowed: &[&str]) -> Policy {
    Policy {
        enabled,
        allowed: allowed.iter().map(|path| path.to_string()).collect(),
    }
}

#[test]
fn a_remote_document_may_never_read_a_local_file() {
    let files = Fixtures;
    let access = files.about(&policy(true, &["/srv/pages"]), "https://example.com/invoice");
    assert_eq!(
        files.verdict(&access, &files.url("pages/style.css")),
        Verdict::Block(REMOTE)
    );
}

#[test]
fn a_local_document_reads_nothing_beside_it_by_default() {
    let files = Fixtures;
    let access = files.about(&Policy::default(), &files.url("pages/doc.html"));
    assert_eq!(
        files.verdict(&access, &files.url("pages/style.css")),
        Verdict::Block(NOT_ENABLED)
    );
    assert_eq!(
        files.verdict(&access, &files.url("pages/doc.html")),
        Verdict::Allow
    );
}

#[test]
fn the_flag_opens_it() {
    let files = Fixtures;
    let access = files.about(&policy(true, &[]), &files.url("pages/doc.html"));
    assert_eq!(
        files.verdict(&access, &files.url("pages/style.css")),
        Verdict::Allow
    );
    assert_eq!(
        files.verdict(&access, &files.url("secret.txt")),
        Verdict::Allow
    );
}

#[test]
fn allow_opens_one_directory_and_not_its_parent() {
    let files = Fixtures;
    let access = files.about(&policy(false, &["/srv/pages"]), &files.url("pages/doc.html"));
    assert_eq!(
        files.verdict(&access, &files.url("pages/style.css")),
        Verdict::Allow
    );
    assert_eq!(
        files.verdict(&access, &files.url("secret.txt")),
        Verdict::Block(NOT_ENABLED)
    );
}

#[test]
fn dots_do_not_climb_out_of_an_allowed_directory() {
    let files = Fixtures;
    let access = files.about(&policy(false, &["/srv/pages"]), &files.url("pages/doc.html"));
    assert_eq!(
        files.verdict(&access, &files.url("pages/../secret.txt")),
        Verdict::Block(NOT_ENABLED)
    );
}

#[test]
fn a_sibling_with_a_longer_name_is_not_inside() {
    let files = Fixtures;
    let access = files.about(&policy(false, &["/srv/pages"]), &files.url("pages/doc.html"));
    assert_eq!(
        files.verdict(&access, &files.url("pages-public/leak.css")),
        Verdict::Block(NOT_ENABLED)
    );
}

#[test]
fn anything_that_is_not_a_local_file_is_not_this_policys_business() {
    let files = Fixtures;
    let access = files.about(&Policy::default(), &files.url("pages/doc.html"));
    for url in [
        "https://example.com/a.css",
        "http://example.com/a.png",
        "data:text/css,body{}",
        "about:blank",
    ] {
        assert_eq!(files.verdict(&access, url), Verdict::Allow, "{url}");
    }
}

#[test]
fn a_file_that_is_not_there_is_left_to_the_browser_to_report() {
    let files = Fixtures;
    let access = files.about(&Policy::default(), &files.url("pages/doc.html"));
    assert_eq!(
        files.verdict(&access, &files.url("pages/nope.css")),
        Verdict::Allow
    );
}

#[test]
fn nothing_is_intercepted_when_nothing_could_be_refused() {
    let files = Fixtures;
    let open = policy(true, &[]);
    assert!(
        !files
            .about(&open, &files.url("pages/doc.html"))
            .polices_anything(),
        "a local document given the run of the disk needs no interception"
    );
    assert!(files.about(&open, "https://example.com/a").polices_anything());
    assert!(files
        .about(&Policy::default(), &files.url("pages/doc.html"))
        .polices_anything());
}

#[test]
fn an_encoded_path_is_compared_as_the_path_it_is() {
    let files = Fixtures;
    let access = files.about(
        &policy(false, &["/srv/with space"]),
        &files.url("pages/doc.html"),
    );
    let encoded = files.url("with%20space/a.css");
    assert_eq!(files.verdict(&access, &encoded), Verdict::Allow, "{encoded}");
}

#[test]
fn a_query_string_is_not_part_of_the_path() {
    let files = Fixtures;
    let access = files.about(&policy(true, &[]), &files.url("pages/doc.html"));
    assert_eq!(
        files.verdict(&access, &format!("{}?v=2", files.url("pages/style.css"))),
        Verdict::Allow
    );
    assert_eq!(
        local_path("file:///srv/a.css?v=2#top").as_deref(),
        Some("/srv/a.css")
    );
}

#[test]
fn a_blocked_verdict_says_what_to_do_about_it() {
    assert!(NOT_ENABLED.contains("--enable-local-file-access"));
    assert!(NOT_ENABLED.contains("--allow"));
}

#[test]
fn what_belongs_to_a_document_may_be_read_with_it() {
    let access = Policy::default()
        .about("file:///srv/sheet.html", Vec::new(), Some("/srv/sheet.html".into()))
        .also("/srv/header.html".into());
    assert_eq!(
        access.verdict("file:///srv/header.html", &Some("/srv/header.html".into())),
        Verdict::Allow
    );
    assert_eq!(
        access.verdict("file:///srv/other.html", &Some("/srv/other.html".into())),
        Verdict::Block(NOT_ENABLED)
    );
}

#[test]
fn only_a_local_url_has_a_path() {
    assert_eq!(local_path("file://localhost/a").as_deref(), Some("/a"));
    assert_eq!(local_path("file://elsewhere/a"), None);
    assert_eq!(local_path("https://x/a"), None);
    assert_eq!(local_path("file:///a%2Fb%zz").as_deref(), Some("/a/b%zz"));
    assert_eq!(local_path("file:///a%FFb").as_deref(), Some("/a\u{fffd}b"));
}

#[test]
fn the_url_of_a_path_names_that_path() {
    for path in ["/", "/a b#c?d", "/r\u{e9}sum\u{e9}/\u{4e2d}.html", "/100%"] {
        assert_eq!(local_path(&file_url(path)).as_deref(), Some(path));
    }
}

#[test]
fn paths_are_taken_apart_by_name() {
    assert_eq!(components("/a//b/./c/"), ["a", "b", "c"]);
    assert!(inside("/a/b", "/a/b/c"));
    assert!(inside("/a/b/", "/a/b"));
    assert!(!inside("/a/b", "/a/bc"));
    assert!(!inside("/a/b", "/a"));
    assert_eq!(join("/a", "b"), "/a/b");
    assert_eq!(join("/a/", "b"), "/a/b");
    assert_eq!(join("/a", "/b"), "/b");
    assert_eq!(join("", "b"), "b");
    assert_eq!(file_name("/a/b.html").as_deref(), Some("b.html"));
    assert_eq!(file_name("/a/b/.").as_deref(), Some("b"));
    assert_eq!(file_name("/a/.."), None);
    assert_eq!(file_name("/"), None);
    assert_eq!(with_file_name("/a/b", "c"), "/a/c");
    assert_eq!(with_file_name("b", "c"), "c");
    assert_eq!(with_file_name("/", "c"), "/c");
}
