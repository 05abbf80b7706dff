//! The rule-execution planner: flag merging across the three levels,
//! dry-run, touch, quit, silencing, internal macros, and exit handling.

use posixutils_make::config::Config as GlobalConfig;
use posixutils_make::error_code::ErrorCode;
use posixutils_make::make::{Make, RuleSource};
use posixutils_make::rule::target::Target;
use posixutils_make::rule::{interpret_exit, interpret_spawn_error, ExitDecision, FailurePolicy};

fn one_rule(recipes: &[&str], config: GlobalConfig) -> Make {
    let sources = vec![RuleSource {
        targets: vec!["rule".to_string()],
        prerequisites: vec![],
        recipes: recipes.iter().map(|s| s.to_string()).collect(),
    }];
    Make::try_from(sources, Vec::new(), config).unwrap()
}

fn plan_for(
    recipes: &[&str],
    config: GlobalConfig,
    up_to_date: bool,
) -> posixutils_make::rule::RunPlan {
    let m = one_rule(recipes, config);
    let target = Target::new("rule".to_string());
    m.rules[0].run_plan(&m.config, &m.macros, &target, up_to_date)
}

#[test]
fn plan_prints_and_executes_a_plain_line() {
    // The scenario of one rule with `echo executed`, silent mode on: the
    // command is executed and nothing is echoed around it.
    let mut cfg = GlobalConfig::default();
    cfg.silent = true;
    let plan = plan_for(&["echo executed"], cfg, false);
    assert_eq!(plan.lines.len(), 1);
    let line = &plan.lines[0];
    assert!(line.execute);
    assert_eq!(line.echo, None);
    assert_eq!(line.command, "echo executed");
    assert_eq!(line.interrupt, Some(("rule".to_string(), false)));
    assert_eq!(line.quit_exit, None);

    // Without silent the command text is printed first.
    let plan = plan_for(&["echo executed"], GlobalConfig::default(), false);
    assert_eq!(plan.lines[0].echo, Some("echo executed".to_string()));
}

#[test]
fn dry_run_prints_every_line_and_executes_none() {
    let mut cfg = GlobalConfig::default();
    cfg.dry_run = true;
    let plan = plan_for(&["exit 1", "echo next"], cfg, false);
    assert_eq!(plan.lines.len(), 2);
    for line in &plan.lines {
        assert!(!line.execute);
        assert_eq!(line.echo, Some(line.command.clone()));
        assert_eq!(line.interrupt, None);
    }
    assert!(plan.touch.is_none());
}

#[test]
fn force_run_prefix_overrides_dry_run() {
    let mut cfg = GlobalConfig::default();
    cfg.dry_run = true;
    cfg.silent = true;
    let plan = plan_for(&["+echo I am NOT skipped", "echo skipped"], cfg, false);
    assert!(plan.lines[0].execute);
    assert_eq!(plan.lines[0].command, "echo I am NOT skipped");
    assert!(!plan.lines[1].execute);
}

#[test]
fn touch_mode_never_spawns_and_touches_at_the_end() {
    let mut cfg = GlobalConfig::default();
    cfg.touch = true;
    let plan = plan_for(&["echo a", "echo b"], cfg, false);
    for line in &plan.lines {
        assert!(!line.execute);
        assert_eq!(line.echo, None);
    }
    let touch = plan.touch.expect("touch mode must plan a touch step");
    assert_eq!(touch.file, "rule");
    assert_eq!(touch.notice, Some("touch rule".to_string()));

    let mut cfg = GlobalConfig::default();
    cfg.touch = true;
    cfg.silent = true;
    let plan = plan_for(&["echo a"], cfg, false);
    assert_eq!(plan.touch.unwrap().notice, None);
}

#[test]
fn quit_mode_reports_up_to_dateness_without_running() {
    let mut cfg = GlobalConfig::default();
    cfg.quit = true;
    let plan = plan_for(&["echo a"], cfg.clone(), true);
    assert!(!plan.lines[0].execute);
    assert_eq!(plan.lines[0].quit_exit, Some(0));
    let plan = plan_for(&["echo a"], cfg, false);
    assert_eq!(plan.lines[0].quit_exit, Some(1));
}

#[test]
fn recipe_prefixes_set_per_line_flags() {
    let plan = plan_for(&["-exit 1", "@echo quiet", "echo loud"], GlobalConfig::default(), false);
    assert_eq!(plan.lines[0].on_failure, FailurePolicy::Ignore);
    assert_eq!(plan.lines[0].command, "exit 1");
    assert_eq!(plan.lines[1].echo, None);
    assert_eq!(plan.lines[1].command, "echo quiet");
    assert_eq!(plan.lines[2].echo, Some("echo loud".to_string()));
}

#[test]
fn ignore_at_any_level_skips_a_failing_line() {
    // Config monotonicity: `ignore` set globally, per rule or per line all
    // lead to the same failing-line decision: proceed.
    let mut cfg = GlobalConfig::default();
    cfg.ignore = true;
    let global_plan = plan_for(&["exit 1"], cfg, false);
    assert_eq!(global_plan.lines[0].on_failure, FailurePolicy::Ignore);

    let line_plan = plan_for(&["-exit 1"], GlobalConfig::default(), false);
    assert_eq!(line_plan.lines[0].on_failure, FailurePolicy::Ignore);

    match interpret_exit(FailurePolicy::Ignore, false, Some(1)) {
        ExitDecision::Proceed => {},
        _ => panic!("a failure under ignore must proceed"),
    }
}

#[test]
fn failure_handling_without_ignore() {
    match interpret_exit(FailurePolicy::Abort, false, Some(2)) {
        ExitDecision::StopErr(e) => {
            assert_eq!(e, ErrorCode::ExecutionError { exit_code: Some(2) });
            assert_eq!(e.message(), "execution error: 2");
            assert_eq!(e.code(), 1);
        },
        _ => panic!("a failure under abort must stop with the error"),
    }
    match interpret_exit(FailurePolicy::LogAndStop, false, None) {
        ExitDecision::StopLogged(m) => {
            assert_eq!(m, "execution error: terminated by signal");
        },
        _ => panic!("keep-going must log and stop"),
    }
    match interpret_exit(FailurePolicy::Abort, true, Some(0)) {
        ExitDecision::Proceed => {},
        _ => panic!("success always proceeds"),
    }
    match interpret_spawn_error(FailurePolicy::Abort, "entity not found".to_string()) {
        ExitDecision::StopErr(e) => {
            assert_eq!(e, ErrorCode::IoError("entity not found".to_string()));
            assert_eq!(e.message(), "io error: entity not found");
            assert_eq!(e.code(), 2);
        },
        _ => panic!("a spawn failure without ignore must stop"),
    }
}

#[test]
fn internal_macros_are_substituted() {
    let m = one_rule(&["echo $@ and $% and $$HOME and $?"], GlobalConfig::default());
    let target = Target::new("archive(member)".to_string());
    let plan = m.rules[0].run_plan(&m.config, &m.macros, &target, false);
    assert_eq!(
        plan.lines[0].command,
        "echo archive and member and $HOME and $?"
    );
}

#[test]
fn keep_going_downgrades_abort() {
    let mut cfg = GlobalConfig::default();
    cfg.keep_going = true;
    let plan = plan_for(&["exit 1"], cfg.clone(), false);
    assert_eq!(plan.lines[0].on_failure, FailurePolicy::LogAndStop);
    cfg.terminate = true;
    let plan = plan_for(&["exit 1"], cfg, false);
    assert_eq!(plan.lines[0].on_failure, FailurePolicy::Abort);
}

#[test]
fn plan_environment_holds_macro_bindings() {
    let sources = vec![RuleSource {
        targets: vec!["rule".to_string()],
        prerequisites: vec![],
        recipes: vec!["echo hi".to_string()],
    }];
    let macros = vec![
        ("A".to_string(), "old".to_string()),
        ("B".to_string(), "two".to_string()),
        ("A".to_string(), "new".to_string()),
    ];
    let m = Make::try_from(sources, macros, GlobalConfig::default()).unwrap();
    let target = Target::new("rule".to_string());
    let plan = m.rules[0].run_plan(&m.config, &m.macros, &target, false);
    assert_eq!(plan.env.get(&"A".to_string()), Some(&"new".to_string()));
    assert_eq!(plan.env.get(&"B".to_string()), Some(&"two".to_string()));
    assert!(!plan.env_macros);
}
