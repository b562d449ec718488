use rchtmltopdf::error::{Error, PINNED_VERSION};
use rchtmltopdf::locate::{
    cache_candidates, cache_directory, given_candidates, locate, resolve_given, system_candidates,
    Environment, Executable, Flavour, Origin, Platform,
};
use std::collections::{HashMap, HashSet};

struct Fake {
    platform: Platform,
    vars: HashMap<String, String>,
    executables: HashSet<String>,
}

impl Fake {
    fn new(platform: Platform) -> Self {
        Self {
            platform,
            vars: HashMap::new(),
            executables: HashSet::new(),
        }
    }
    fn with_var(mut self, key: &str, value: &str) -> Self {
        self.vars.insert(key.into(), value.into());
        self
    }
    fn with_executable(mut self, path: &str) -> Self {
        self.executables.insert(path.to_string());
        self
    }
}

impl Environment for Fake {
    fn var(&self, key: &str) -> Option<String> {
        self.vars.get(key).cloned()
    }
    fn is_executable_file(&self, path: &str) -> bool {
        self.executables.contains(path)
    }
    fn home(&self) -> Option<String> {
        self.vars.get("HOME").cloned()
    }
    fn platform(&self) -> Platform {
        self.platform
    }
}

fn linux() -> Fake {
    Fake::new(Platform::Linux)
        .with_var("HOME", "/home/nobody")
        .with_var("PATH", "/usr/local/bin:/usr/bin")
}

#[test]
fn a_macos_bundle_is_a_browser() {
    let executable = "/Applications/Google Chrome.app/Contents/MacOS/Google Chrome";
    let machine = Fake::new(Platform::MacOs).with_executable(executable);
    let found = locate(Some("/Applications/Google Chrome.app"), &machine)
        .expect("a bundle should resolve");
    assert_eq!(found.path, executable);
    assert_eq!(found.origin, Origin::Flag);
}

#[test]
fn a_directory_with_a_browser_in_it_is_a_browser() {
    let machine =
        Fake::new(Platform::Linux).with_executable("/opt/browsers/chrome-headless-shell");
    let found = locate(Some("/opt/browsers"), &machine).expect("a directory should resolve");
    assert_eq!(found.path, "/opt/browsers/chrome-headless-shell");
}

#[test]
fn an_unpacked_chrome_for_testing_directory_is_a_browser() {
    let executable = "/downloads/chrome-headless-shell-linux64/chrome-headless-shell";
    let machine = Fake::new(Platform::Linux).with_executable(executable);
    let found = locate(Some("/downloads"), &machine).expect("an unpacked archive should resolve");
    assert_eq!(found.path, executable);
}

#[test]
fn an_environment_variable_may_also_name_a_directory() {
    let machine = Fake::new(Platform::Linux)
        .with_var("CHROME_PATH", "/opt/browsers")
        .with_executable("/opt/browsers/chromium");
    let found = locate(None, &machine).expect("should resolve");
    assert_eq!(found.path, "/opt/browsers/chromium");
    assert_eq!(
        found.origin,
        Origin::Environment {
            variable: "CHROME_PATH"
        }
    );
}

#[test]
fn a_path_that_is_nothing_names_itself_in_the_failure() {
    let machine = Fake::new(Platform::Linux);
    let error = locate(Some("/nowhere"), &machine).expect_err("nothing is there");
    let message = error.message();
    assert!(message.contains("/nowhere"), "{message}");
    assert_eq!(
        message.matches("/nowhere").count(),
        1,
        "the probes are noise, not attempts to report:\n{message}"
    );
}

#[test]
fn the_failure_says_how_to_get_a_browser() {
    let message = locate(None, &Fake::new(Platform::Linux))
        .expect_err("nothing is there")
        .message();
    assert!(message.contains("apt install chromium"), "{message}");
    assert!(message.contains("@puppeteer/browsers"), "{message}");
    assert!(message.contains(PINNED_VERSION), "{message}");
    assert!(message.contains("--chromium-path"), "{message}");
    assert!(!message.contains("fetch-chromium"), "{message}");
}

#[test]
fn the_flag_wins_over_everything_else() {
    let env = linux()
        .with_var("CHROME_PATH", "/usr/bin/google-chrome")
        .with_executable("/usr/bin/google-chrome")
        .with_executable("/usr/bin/chromium")
        .with_executable("/opt/mine/chrome");
    let found = locate(Some("/opt/mine/chrome"), &env).unwrap();
    assert_eq!(found.path, "/opt/mine/chrome");
    assert_eq!(found.origin, Origin::Flag);
}

#[test]
fn a_flag_pointing_at_nothing_is_recorded() {
    let env = linux();
    let error = locate(Some("/nope/chrome"), &env).unwrap_err();
    let message = error.message();
    assert!(message.contains("/nope/chrome"), "{message}");
    assert!(message.contains("--chromium-path"), "{message}");
}

#[test]
fn environment_variables_are_tried_in_order() {
    let env = linux()
        .with_var("CHROME_PATH", "/from/chrome-path")
        .with_var("RCHTMLTOPDF_CHROMIUM", "/from/ours")
        .with_executable("/from/chrome-path")
        .with_executable("/from/ours");
    let found = locate(None, &env).unwrap();
    assert_eq!(found.path, "/from/ours");
    assert_eq!(
        found.origin,
        Origin::Environment {
            variable: "RCHTMLTOPDF_CHROMIUM"
        }
    );
}

#[test]
fn a_variable_pointing_at_nothing_falls_through_to_the_next_rung() {
    let env = linux()
        .with_var("CHROME_PATH", "/stale/path")
        .with_executable("/usr/bin/chromium");
    let found = locate(None, &env).unwrap();
    assert_eq!(found.path, "/usr/bin/chromium");
    assert_eq!(found.origin, Origin::SystemLocation);
}

#[test]
fn puppeteer_cache_variable_is_honoured() {
    let env = linux()
        .with_var("PUPPETEER_EXECUTABLE_PATH", "/cache/puppeteer/chrome")
        .with_executable("/cache/puppeteer/chrome");
    let found = locate(None, &env).unwrap();
    assert_eq!(
        found.origin,
        Origin::Environment {
            variable: "PUPPETEER_EXECUTABLE_PATH"
        }
    );
}

#[test]
fn the_headless_shell_is_preferred_over_a_full_browser() {
    let env = linux()
        .with_executable("/usr/bin/google-chrome")
        .with_executable("/usr/bin/chromium")
        .with_executable("/usr/bin/chrome-headless-shell");
    let found = locate(None, &env).unwrap();
    assert_eq!(found.path, "/usr/bin/chrome-headless-shell");
    assert_eq!(found.flavour, Flavour::HeadlessShell);
}

#[test]
fn earlier_path_entries_win() {
    let env = linux()
        .with_executable("/usr/local/bin/chromium")
        .with_executable("/usr/bin/chromium");
    let found = locate(None, &env).unwrap();
    assert_eq!(found.path, "/usr/local/bin/chromium");
}

#[test]
fn flavour_is_read_from_the_file_name() {
    let shell = Executable::at("/x/chrome-headless-shell".into(), Origin::Flag);
    assert_eq!(shell.flavour, Flavour::HeadlessShell);
    let full = Executable::at("/x/google-chrome".into(), Origin::Flag);
    assert_eq!(full.flavour, Flavour::FullBrowser);
    let renamed = Executable::at("/opt/Chrome-Headless-Shell".into(), Origin::Flag);
    assert_eq!(renamed.flavour, Flavour::HeadlessShell);
}

#[test]
fn macos_looks_inside_application_bundles() {
    let env = Fake::new(Platform::MacOs)
        .with_var("HOME", "/Users/nobody")
        .with_executable("/Applications/Chromium.app/Contents/MacOS/Chromium");
    let found = locate(None, &env).unwrap();
    assert_eq!(found.origin, Origin::SystemLocation);
    assert_eq!(found.flavour, Flavour::FullBrowser);
}

#[test]
fn macos_also_looks_in_the_users_own_applications_folder() {
    let env = Fake::new(Platform::MacOs)
        .with_var("HOME", "/Users/nobody")
        .with_executable(
            "/Users/nobody/Applications/Google Chrome.app/Contents/MacOS/Google Chrome",
        );
    assert!(locate(None, &env).is_ok());
}

#[test]
fn windows_looks_under_program_files() {
    let chrome = format!("{}/Google/Chrome/Application/chrome.exe", r"C:\Program Files");
    let env = Fake::new(Platform::Windows)
        .with_var("PROGRAMFILES", r"C:\Program Files")
        .with_executable(&chrome);
    let found = locate(None, &env).unwrap();
    assert_eq!(found.path, chrome);
    assert_eq!(found.origin, Origin::SystemLocation);
    assert_eq!(found.flavour, Flavour::FullBrowser);
}

#[test]
fn the_cache_directory_follows_platform_convention() {
    let linux_cache = cache_directory(&linux()).unwrap();
    assert_eq!(linux_cache, "/home/nobody/.cache/rchtmltopdf");
    let with_xdg = linux().with_var("XDG_CACHE_HOME", "/xdg");
    assert_eq!(cache_directory(&with_xdg).unwrap(), "/xdg/rchtmltopdf");
    let mac = Fake::new(Platform::MacOs).with_var("HOME", "/Users/nobody");
    assert_eq!(
        cache_directory(&mac).unwrap(),
        "/Users/nobody/Library/Caches/rchtmltopdf"
    );
}

#[test]
fn the_cache_directory_can_be_overridden() {
    let env = linux().with_var("RCHTMLTOPDF_CACHE_DIR", "/work/.chromium-cache");
    assert_eq!(cache_directory(&env).unwrap(), "/work/.chromium-cache");
}

#[test]
fn a_browser_in_the_cache_is_found_last_but_is_found() {
    let cached = format!(
        "/work/cache/{PINNED_VERSION}/chrome-headless-shell-linux64/chrome-headless-shell"
    );
    let env = linux()
        .with_var("RCHTMLTOPDF_CACHE_DIR", "/work/cache")
        .with_executable(&cached);
    let found = locate(None, &env).unwrap();
    assert_eq!(found.path, cached);
    assert_eq!(found.origin, Origin::Cache);
    assert_eq!(found.flavour, Flavour::HeadlessShell);
}

#[test]
fn the_pinned_version_is_read_from_the_single_source_of_truth() {
    assert!(!PINNED_VERSION.is_empty());
    assert!(!PINNED_VERSION.contains('\n'));
    assert_eq!(PINNED_VERSION.split('.').count(), 4, "{PINNED_VERSION}");
}

#[test]
fn finding_nothing_lists_everywhere_it_looked_and_says_what_to_do() {
    let env = linux()
        .with_var("CHROME_PATH", "/stale")
        .with_var("RCHTMLTOPDF_CACHE_DIR", "/work/cache");
    let message = locate(Some("/flag/chrome"), &env).unwrap_err().message();
    let rungs = [
        "/flag/chrome",
        "/stale",
        "/usr/local/bin/chrome-headless-shell",
        "/opt/google/chrome/chrome",
        "/work/cache",
    ];
    let mut cursor = 0;
    for rung in rungs {
        let at = message[cursor..]
            .find(rung)
            .unwrap_or_else(|| panic!("{rung} missing or out of order in:\n{message}"));
        cursor += at;
    }
    assert!(message.contains("--chromium-path"), "{message}");
    assert!(!message.to_lowercase().contains("downloading"), "{message}");
}

#[test]
fn a_machine_with_nothing_set_still_produces_a_usable_message() {
    let env = Fake::new(Platform::Linux);
    let message = locate(None, &env).unwrap_err().message();
    assert!(message.contains("could not find Chromium"), "{message}");
    assert!(message.contains("apt install chromium"), "{message}");
}

#[test]
fn every_candidate_of_a_directory_is_listed_in_order() {
    let env = Fake::new(Platform::Linux);
    let list = given_candidates("/d", &env);
    assert_eq!(list.len(), 16);
    assert_eq!(list[0], "/d");
    assert_eq!(list[1], "/d/chrome-headless-shell");
    assert_eq!(list[6], "/d/chrome-headless-shell-linux-arm64/chrome-headless-shell");
    assert_eq!(list[15], "/d/google-chrome-stable-linux64/google-chrome-stable");
    let mac = Fake::new(Platform::MacOs);
    assert_eq!(given_candidates("/A/X.app", &mac).len(), 20);
    assert_eq!(given_candidates("/A/.app", &mac).len(), 16, "a hidden file is no bundle");
    assert_eq!(resolve_given("/d", &env), None);
}

#[test]
fn system_candidates_name_where_they_come_from() {
    let list = system_candidates(&linux());
    assert_eq!(list.len(), 13);
    assert_eq!(list[0], ("PATH", "/usr/local/bin/chrome-headless-shell".to_string()));
    assert_eq!(list[10], ("known location", "/opt/google/chrome/chrome".to_string()));
    let windows = Fake::new(Platform::Windows).with_var("LOCALAPPDATA", "L");
    assert_eq!(
        system_candidates(&windows),
        vec![("known location", "L/Google/Chrome/Application/chrome.exe".to_string())]
    );
    assert_eq!(
        cache_candidates(&windows)[0],
        format!("L/rchtmltopdf/cache/{PINNED_VERSION}/chrome-headless-shell-win64/chrome-headless-shell.exe")
    );
}

#[test]
fn a_search_that_fails_names_every_rung() {
    match locate(Some("/f"), &linux()) {
        Err(Error::BrowserNotFound { attempts }) => {
            assert_eq!(attempts.len(), 1 + 13 + 2);
            assert_eq!(attempts[0].source, "--chromium-path");
            assert_eq!(attempts[15].source, "download cache");
        }
        other => panic!("{other:?}"),
    }
    let empty = Error::BrowserNotFound { attempts: Vec::new() };
    assert!(empty.message().contains("(nothing: no candidate locations for this platform)"));
}

#[test]
fn an_origin_is_shown_as_it_was_written() {
    assert_eq!(Origin::Flag.describe(), "--chromium-path");
    assert_eq!(
        Origin::Environment { variable: "CHROME_PATH" }.describe(),
        "$CHROME_PATH"
    );
    assert_eq!(Origin::SystemLocation.describe(), "a system location");
    assert_eq!(Origin::Cache.describe(), "the cache directory");
}
