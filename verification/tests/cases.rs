use std::time::Duration;
use trycmd::cases::TestCases;
use trycmd::mode::Mode;
use trycmd::runner::RunnerSpec;
use trycmd::schema::{Bin, CommandStatus};

fn no_args() -> Vec<String> {
    Vec::new()
}

fn registered(spec: &RunnerSpec) -> Vec<(String, Option<CommandStatus>)> {
    let mut all = Vec::new();
    let mut i = 0;
    while let Some((glob, expected)) = spec.cases().entry(i) {
        all.push((glob.to_owned(), *expected));
        i += 1;
    }
    all
}

fn variables(spec: &RunnerSpec) -> Vec<(String, String)> {
    let mut all = Vec::new();
    let mut i = 0;
    while let Some((key, value)) = spec.variables().entry(i) {
        all.push((key.to_owned(), value.clone()));
        i += 1;
    }
    all
}

#[test]
fn new_registry_is_pending_and_empty() {
    let cases = TestCases::new(&no_args());
    assert!(!cases.has_run());
    assert_eq!(registered(cases.runner()), vec![]);
    assert_eq!(variables(cases.runner()), vec![]);
    assert_eq!(cases.runner().filter(), None);
    assert_eq!(cases.runner().bin(), None);
    assert_eq!(cases.runner().time_limit(), None);
}

#[test]
fn default_registry_is_pending_and_empty() {
    let cases = TestCases::default();
    assert!(!cases.has_run());
    assert_eq!(registered(cases.runner()), vec![]);
    assert_eq!(cases.runner().filter(), None);
}

#[test]
fn new_registry_takes_its_filter_from_the_arguments() {
    let args: Vec<String> = ["x", "trycmd=foo", "trycmd=", "trycmd=bar"]
        .iter()
        .map(|arg| arg.to_string())
        .collect();
    let cases = TestCases::new(&args);
    assert_eq!(
        cases.runner().filter(),
        Some(&vec!["foo".to_owned(), "bar".to_owned()])
    );
}

#[test]
fn case_registers_without_an_expected_outcome() {
    let mut cases = TestCases::new(&no_args());
    cases.case("tests/cmd/*.toml");
    assert_eq!(
        registered(cases.runner()),
        vec![("tests/cmd/*.toml".to_owned(), None)]
    );
}

#[test]
fn each_status_method_registers_its_outcome() {
    let mut cases = TestCases::new(&no_args());
    cases.pass("p").fail("f").interrupted("i").skip("s").case("c");
    assert_eq!(
        registered(cases.runner()),
        vec![
            ("p".to_owned(), Some(CommandStatus::Pass)),
            ("f".to_owned(), Some(CommandStatus::Fail)),
            ("i".to_owned(), Some(CommandStatus::Interrupted)),
            ("s".to_owned(), Some(CommandStatus::Skip)),
            ("c".to_owned(), None),
        ]
    );
}

#[test]
fn pass_after_case_overrides_without_a_second_entry() {
    let mut cases = TestCases::new(&no_args());
    cases.case("tests/cmd/*.toml").pass("tests/cmd/*.toml");
    assert_eq!(
        registered(cases.runner()),
        vec![("tests/cmd/*.toml".to_owned(), Some(CommandStatus::Pass))]
    );
}

#[test]
fn later_registration_wins_and_keeps_the_place() {
    let mut cases = TestCases::new(&no_args());
    cases.case("a").case("b").case("c");
    cases.fail("b");
    cases.skip("a").interrupted("a");
    cases.pass("c").case("c");
    assert_eq!(
        registered(cases.runner()),
        vec![
            ("a".to_owned(), Some(CommandStatus::Interrupted)),
            ("b".to_owned(), Some(CommandStatus::Fail)),
            ("c".to_owned(), None),
        ]
    );
}

#[test]
fn overlapping_patterns_stay_separate() {
    let mut cases = TestCases::new(&no_args());
    cases.case("tests/cmd/*.toml").fail("tests/cmd/bad.toml");
    assert_eq!(
        registered(cases.runner()),
        vec![
            ("tests/cmd/*.toml".to_owned(), None),
            ("tests/cmd/bad.toml".to_owned(), Some(CommandStatus::Fail)),
        ]
    );
}

#[test]
fn env_set_twice_leaves_one_entry_with_the_last_value() {
    let mut cases = TestCases::new(&no_args());
    cases.env("K", "1").env("K", "2");
    assert_eq!(variables(cases.runner()), vec![("K".to_owned(), "2".to_owned())]);
    assert_eq!(cases.runner().variables().get("K"), Some(&"2".to_owned()));
    assert_eq!(cases.runner().variables().len(), 1);
}

#[test]
fn env_keeps_the_order_of_first_mention() {
    let mut cases = TestCases::new(&no_args());
    cases.env("Z", "1").env("A", "2").env("M", "3").env("Z", "4");
    assert_eq!(
        variables(cases.runner()),
        vec![
            ("Z".to_owned(), "4".to_owned()),
            ("A".to_owned(), "2".to_owned()),
            ("M".to_owned(), "3".to_owned()),
        ]
    );
}

#[test]
fn last_default_bin_wins() {
    let mut cases = TestCases::new(&no_args());
    cases.default_bin_path("target/debug/tool");
    assert_eq!(
        cases.runner().bin(),
        Some(&Bin::Path("target/debug/tool".to_owned()))
    );
    cases.default_bin_name("tool");
    assert_eq!(cases.runner().bin(), Some(&Bin::Name("tool".to_owned())));
    cases.default_bin_name("other").default_bin_path("p");
    assert_eq!(cases.runner().bin(), Some(&Bin::Path("p".to_owned())));
}

#[test]
fn last_timeout_wins() {
    let mut cases = TestCases::new(&no_args());
    cases.timeout(Duration::from_secs(5));
    assert_eq!(cases.runner().time_limit(), Some(Duration::from_secs(5)));
    cases.timeout(Duration::from_millis(250)).timeout(Duration::from_secs(1));
    assert_eq!(cases.runner().time_limit(), Some(Duration::from_secs(1)));
}

#[test]
fn setters_leave_the_other_settings_alone() {
    let mut cases = TestCases::new(&vec!["trycmd=foo".to_owned()]);
    cases
        .case("a")
        .env("K", "v")
        .default_bin_name("tool")
        .timeout(Duration::from_secs(3))
        .pass("b");
    assert_eq!(
        registered(cases.runner()),
        vec![("a".to_owned(), None), ("b".to_owned(), Some(CommandStatus::Pass))]
    );
    assert_eq!(variables(cases.runner()), vec![("K".to_owned(), "v".to_owned())]);
    assert_eq!(cases.runner().bin(), Some(&Bin::Name("tool".to_owned())));
    assert_eq!(cases.runner().time_limit(), Some(Duration::from_secs(3)));
    assert_eq!(cases.runner().filter(), Some(&vec!["foo".to_owned()]));
    assert!(!cases.has_run());
}

#[test]
fn run_twice_starts_once() {
    let mut cases = TestCases::new(&no_args());
    cases.case("a");
    assert_eq!(cases.run(None), Some(Mode::Fail));
    assert!(cases.has_run());
    assert_eq!(cases.run(None), None);
    assert_eq!(cases.run(Some("overwrite")), None);
    assert!(cases.has_run());
    assert_eq!(registered(cases.runner()), vec![("a".to_owned(), None)]);
}

#[test]
fn run_resolves_the_mode_from_the_variable() {
    let mut cases = TestCases::new(&no_args());
    assert_eq!(cases.run(Some("overwrite")), Some(Mode::Overwrite));
    let mut cases = TestCases::new(&no_args());
    assert_eq!(cases.run(Some("dump")), Some(Mode::Dump("dump".to_owned())));
    let mut cases = TestCases::new(&no_args());
    assert_eq!(cases.run(Some("bogus")), Some(Mode::Fail));
}

#[test]
fn scope_end_starts_a_pending_registry() {
    let mut cases = TestCases::new(&no_args());
    cases.case("a");
    assert_eq!(cases.end_scope(false, Some("overwrite")), Some(Mode::Overwrite));
    assert!(cases.has_run());
    assert_eq!(cases.end_scope(false, Some("overwrite")), None);
}

#[test]
fn scope_end_after_run_starts_nothing() {
    let mut cases = TestCases::new(&no_args());
    assert_eq!(cases.run(None), Some(Mode::Fail));
    assert_eq!(cases.end_scope(false, None), None);
    assert!(cases.has_run());
}

#[test]
fn scope_end_during_unwinding_starts_nothing() {
    let mut cases = TestCases::new(&no_args());
    cases.case("a");
    assert_eq!(cases.end_scope(true, Some("overwrite")), None);
    assert!(!cases.has_run());
    assert_eq!(registered(cases.runner()), vec![("a".to_owned(), None)]);
}

#[test]
fn scope_end_during_unwinding_after_run_starts_nothing() {
    let mut cases = TestCases::new(&no_args());
    assert_eq!(cases.run(None), Some(Mode::Fail));
    assert_eq!(cases.end_scope(true, None), None);
    assert!(cases.has_run());
}

#[test]
fn without_a_filter_every_name_is_included() {
    let cases = TestCases::new(&no_args());
    assert!(cases.runner().includes("tests/cmd/basic.toml"));
    assert!(cases.runner().includes(""));
}

#[test]
fn with_a_filter_a_name_must_contain_one_of_its_texts() {
    let args: Vec<String> = ["x", "trycmd=foo", "trycmd=", "trycmd=bar"]
        .iter()
        .map(|arg| arg.to_string())
        .collect();
    let cases = TestCases::new(&args);
    assert!(cases.runner().includes("tests/cmd/foo.toml"));
    assert!(cases.runner().includes("tests/cmd/rebar.trycmd"));
    assert!(cases.runner().includes("foobar"));
    assert!(!cases.runner().includes("tests/cmd/baz.toml"));
    assert!(!cases.runner().includes("tests/cmd/Foo.toml"));
    assert!(!cases.runner().includes("x"));
    assert!(!cases.runner().includes(""));
}
