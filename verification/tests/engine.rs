//! The make engine: special-target validation and modifiers, target
//! classification, build order, cycle detection and staleness.

use posixutils_make::config::Config as GlobalConfig;
use posixutils_make::error_code::ErrorCode;
use posixutils_make::make::{is_stale, Make, RuleSource};
use posixutils_make::rule::target::Target;
use posixutils_make::special_target;

fn src(targets: &[&str], prereqs: &[&str], recipes: &[&str]) -> RuleSource {
    RuleSource {
        targets: targets.iter().map(|s| s.to_string()).collect(),
        prerequisites: prereqs.iter().map(|s| s.to_string()).collect(),
        recipes: recipes.iter().map(|s| s.to_string()).collect(),
    }
}

fn make_of(sources: Vec<RuleSource>) -> Make {
    Make::try_from(sources, Vec::new(), GlobalConfig::default()).unwrap()
}

#[test]
fn target_classification() {
    match Target::new("hello".to_string()) {
        Target::Simple { name } => assert_eq!(name, "hello"),
        other => panic!("expected a simple target, got {:?}", other),
    }
    match Target::new(".c.o".to_string()) {
        Target::Inference { from, to } => {
            assert_eq!(from, "c");
            assert_eq!(to, "o");
        },
        other => panic!("expected an inference target, got {:?}", other),
    }
    match Target::new(".SILENT".to_string()) {
        Target::Special(st) => assert_eq!(st, special_target::SpecialTarget::Silent),
        other => panic!("expected a special target, got {:?}", other),
    }
    assert_eq!(Target::new(".c.o".to_string()).name(), ".c.o");
    assert_eq!(Target::new(".SILENT".to_string()).name(), ".SILENT");
}

#[test]
fn default_must_not_have_prerequisites() {
    let e = Make::try_from(
        vec![src(&[".DEFAULT"], &["x"], &["echo Default"])],
        Vec::new(),
        GlobalConfig::default(),
    )
    .unwrap_err();
    assert_eq!(
        e,
        ErrorCode::SpecialTargetConstraintNotFulfilled {
            target: ".DEFAULT".to_string(),
            constraint: special_target::Error::MustNotHavePrerequisites,
        }
    );
    assert_eq!(
        e.message(),
        "'.DEFAULT' special target constraint is not fulfilled: the special target must not have prerequisites"
    );
}

#[test]
fn silent_must_not_have_recipes() {
    let e = Make::try_from(
        vec![src(&[".SILENT"], &[], &["echo no"])],
        Vec::new(),
        GlobalConfig::default(),
    )
    .unwrap_err();
    assert_eq!(
        e,
        ErrorCode::SpecialTargetConstraintNotFulfilled {
            target: ".SILENT".to_string(),
            constraint: special_target::Error::MustNotHaveRecipes,
        }
    );
    assert_eq!(
        e.message(),
        "'.SILENT' special target constraint is not fulfilled: the special target must not have recipes"
    );
}

#[test]
fn bare_silent_sets_the_global_flag() {
    let m = make_of(vec![
        src(&[".SILENT"], &[], &[]),
        src(&["rule"], &[], &["echo hi"]),
    ]);
    assert!(m.config.silent);
}

#[test]
fn named_silent_marks_only_the_named_targets() {
    // Modifiers are additive: each `.SILENT` rule's prerequisites are
    // silenced, wherever in the document the rule stands.
    let m = make_of(vec![
        src(&[".SILENT"], &["rule1"], &[]),
        src(&["rule1"], &[], &["echo one"]),
        src(&["rule2"], &[], &["echo two"]),
        src(&[".SILENT"], &["rule2"], &[]),
        src(&["rule3"], &[], &["echo three"]),
    ]);
    assert!(!m.config.silent);
    assert!(m.rules[0].config.silent);
    assert!(m.rules[1].config.silent);
    assert!(!m.rules[2].config.silent);
}

#[test]
fn first_target_skips_special_rules() {
    let m = make_of(vec![
        src(&[".SILENT"], &[], &[]),
        src(&["real"], &[], &["echo hi"]),
    ]);
    let t = m.first_target().unwrap();
    assert_eq!(t.name(), "real");
}

#[test]
fn first_target_of_empty_document_is_no_target() {
    // An empty document with no target argument: the no-target error with
    // its exact message.
    let m = make_of(vec![]);
    let e = m.first_target().unwrap_err();
    assert_eq!(e, ErrorCode::NoTarget { target: None });
    assert_eq!(e.message(), "no targets to execute");
    assert_eq!(e.code(), 5);
}

#[test]
fn build_order_chains_prerequisites_first() {
    // rule1 depends on rule2: the build order is rule2, rule1.
    let m = make_of(vec![
        src(&["rule1"], &["rule2"], &["echo rule1"]),
        src(&["rule2"], &[], &["echo rule2"]),
    ]);
    let order = m.build_order(&"rule1".to_string()).unwrap();
    assert_eq!(order, vec!["rule2", "rule1"]);
}

#[test]
fn build_order_visits_each_target_once() {
    // A diamond: rule1 needs rule2 and rule3, both need rule4; rule4 is
    // built once, and the order is depth-first.
    let m = make_of(vec![
        src(&["rule1"], &["rule2", "rule3"], &["echo rule1"]),
        src(&["rule2"], &["rule4"], &["echo rule2"]),
        src(&["rule3"], &["rule4"], &["echo rule3"]),
        src(&["rule4"], &[], &["echo rule4"]),
    ]);
    let order = m.build_order(&"rule1".to_string()).unwrap();
    assert_eq!(order, vec!["rule4", "rule2", "rule3", "rule1"]);
}

#[test]
fn build_order_reports_recursive_prerequisites() {
    // Rules `a: b` and `b: a` fail with a recursive-prerequisite error
    // naming one of the two as origin, instead of recursing forever.
    let m = make_of(vec![
        src(&["rule1"], &["rule2"], &[]),
        src(&["rule2"], &["rule1"], &[]),
    ]);
    let e = m.build_order(&"rule1".to_string()).unwrap_err();
    assert_eq!(
        e,
        ErrorCode::RecursivePrerequisite { origin: "rule1".to_string() }
    );
    assert_eq!(
        e.message(),
        "recursive prerequisite found trying to build 'rule1'"
    );
    assert_eq!(e.code(), 7);
}

#[test]
fn build_order_skips_plain_file_prerequisites() {
    let m = make_of(vec![src(&["rule"], &["source.c"], &["cc source.c"])]);
    let order = m.build_order(&"rule".to_string()).unwrap();
    assert_eq!(order, vec!["rule"]);
}

#[test]
fn build_order_without_rule_uses_default_or_fails() {
    let with_default = make_of(vec![
        src(&[".DEFAULT"], &[], &["echo Default"]),
        src(&["real"], &[], &["echo hi"]),
    ]);
    assert!(with_default.default_rule.is_some());
    let order = with_default.build_order(&"missing".to_string()).unwrap();
    assert_eq!(order, vec!["missing"]);

    let without = make_of(vec![src(&["real"], &[], &["echo hi"])]);
    let e = without.build_order(&"missing".to_string()).unwrap_err();
    assert_eq!(e, ErrorCode::NoTarget { target: Some("missing".to_string()) });
    assert_eq!(e.message(), "no target 'missing'");
}

#[test]
fn staleness_rules() {
    // missing target: stale
    assert!(is_stale(false, None, &vec![Some(1)]));
    // phony or special: always stale
    assert!(is_stale(true, Some(10), &vec![]));
    // a newer prerequisite: stale
    assert!(is_stale(false, Some(5), &vec![Some(3), Some(7)]));
    // a missing prerequisite counts as newer
    assert!(is_stale(false, Some(5), &vec![None]));
    // older prerequisites only: up to date
    assert!(!is_stale(false, Some(5), &vec![Some(3), Some(5)]));
    // no prerequisites, file present: up to date
    assert!(!is_stale(false, Some(5), &vec![]));
}
