use std::time::Duration;
use trycmd::{Bin, CommandStatus, RunnerSpec};

fn texts(list: &[&str]) -> Vec<String> {
    list.iter().map(|text| text.to_string()).collect()
}

#[test]
fn new_configuration_is_empty() {
    let spec = RunnerSpec::new();
    assert_eq!(spec.cases().len(), 0);
    assert_eq!(spec.variables().len(), 0);
    assert_eq!(spec.filter(), None);
    assert_eq!(spec.bin(), None);
    assert_eq!(spec.time_limit(), None);
}

#[test]
fn patterns_are_not_validated() {
    let mut spec = RunnerSpec::new();
    spec.case("", None);
    spec.case("[unclosed", Some(CommandStatus::Skip));
    spec.case("no/such/dir/**", None);
    assert_eq!(spec.cases().len(), 3);
    assert_eq!(spec.cases().entry(0), Some(("", &None)));
    assert_eq!(spec.cases().get("[unclosed"), Some(&Some(CommandStatus::Skip)));
    assert_eq!(spec.cases().position("no/such/dir/**"), Some(2));
}

#[test]
fn registering_again_without_outcome_clears_the_override() {
    let mut spec = RunnerSpec::new();
    spec.case("a", Some(CommandStatus::Fail));
    spec.case("a", None);
    assert_eq!(spec.cases().len(), 1);
    assert_eq!(spec.cases().get("a"), Some(&None));
}

#[test]
fn defaults_can_be_taken_back() {
    let mut spec = RunnerSpec::new();
    spec.default_bin(Some(Bin::Name("tool".to_owned())));
    spec.timeout(Some(Duration::from_secs(2)));
    spec.restrict(Some(texts(&["foo"])));
    assert_eq!(spec.bin(), Some(&Bin::Name("tool".to_owned())));
    assert_eq!(spec.time_limit(), Some(Duration::from_secs(2)));
    assert_eq!(spec.filter(), Some(&texts(&["foo"])));
    spec.default_bin(None);
    spec.timeout(None);
    spec.restrict(None);
    assert_eq!(spec.bin(), None);
    assert_eq!(spec.time_limit(), None);
    assert_eq!(spec.filter(), None);
}

#[test]
fn variables_and_cases_do_not_mix() {
    let mut spec = RunnerSpec::new();
    spec.case("K", None);
    spec.env("K".to_owned(), "1".to_owned());
    spec.env("K".to_owned(), "2".to_owned());
    assert_eq!(spec.cases().len(), 1);
    assert_eq!(spec.cases().get("K"), Some(&None));
    assert_eq!(spec.variables().len(), 1);
    assert_eq!(spec.variables().entry(0), Some(("K", &"2".to_owned())));
}

#[test]
fn variable_may_be_empty() {
    let mut spec = RunnerSpec::new();
    spec.env("EMPTY".to_owned(), String::new());
    assert_eq!(spec.variables().get("EMPTY"), Some(&String::new()));
}

#[test]
fn filter_selects_by_any_of_its_texts() {
    let mut spec = RunnerSpec::new();
    spec.restrict(Some(texts(&["alpha", "beta"])));
    assert!(spec.includes("tests/alpha.toml"));
    assert!(spec.includes("tests/beta.toml"));
    assert!(spec.includes("alphabet"));
    assert!(!spec.includes("tests/gamma.toml"));
    assert!(!spec.includes("alph"));
}

#[test]
fn bin_clone_keeps_the_reference() {
    let path = Bin::Path("target/debug/tool".to_owned());
    let name = Bin::Name("tool".to_owned());
    assert_eq!(path.clone(), path);
    assert_eq!(name.clone(), name);
    assert_ne!(Bin::Path("tool".to_owned()), name);
}
