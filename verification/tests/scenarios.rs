//! Whole-pipeline scenarios: document text through the preprocessor, the
//! parser and the engine, down to the exact commands a run would execute.

use posixutils_make::config::Config as GlobalConfig;
use posixutils_make::error_code::ErrorCode;
use posixutils_make::make::{Make, RuleSource};
use posixutils_make::parser::parse::parse;
use posixutils_make::parser::preprocessor::preprocess;
use posixutils_make::rule::target::Target;

/// Runs text through preprocessing, parsing and model building.
fn load(text: &str, config: GlobalConfig) -> Result<Make, ErrorCode> {
    let preprocessed = preprocess(text).map_err(|e| ErrorCode::ParseError(e.0.join("\n")))?;
    let parsed = parse(&preprocessed);
    if !parsed.errors.is_empty() {
        return Err(ErrorCode::ParseError(parsed.errors.join("\n")));
    }
    let mut sources = Vec::new();
    for rule in parsed.root().rules() {
        sources.push(RuleSource {
            targets: rule.targets().clone(),
            prerequisites: rule.prerequisites().clone(),
            recipes: rule.recipes().clone(),
        });
    }
    let mut macros = Vec::new();
    for def in parsed.root().variable_definitions() {
        macros.push((
            def.name().unwrap_or_default(),
            def.raw_value().unwrap_or_default(),
        ));
    }
    Make::try_from(sources, macros, config)
}

/// The commands a run of `make` would hand to the shell, in order, for the
/// first target, plus what it would print around them.
fn planned_commands(make: &Make, target_name: &str) -> (Vec<String>, Vec<String>) {
    let order = make.build_order(&target_name.to_string()).unwrap();
    let mut commands = Vec::new();
    let mut echoes = Vec::new();
    for name in order {
        let rule = make
            .rules
            .iter()
            .find(|r| r.targets().iter().any(|t| t.name() == name))
            .unwrap();
        let target = Target::new(name.clone());
        let plan = rule.run_plan(&make.config, &make.macros, &target, false);
        for line in &plan.lines {
            if let Some(echo) = &line.echo {
                echoes.push(echo.clone());
            }
            if line.execute {
                commands.push(line.command.clone());
            }
        }
    }
    (commands, echoes)
}

#[test]
fn scenario_single_rule_silent() {
    // `rule:` with `echo executed`, silent mode: exactly one shell command,
    // `echo executed`, and nothing printed around it — so the run's whole
    // output is `executed`.
    let mut cfg = GlobalConfig::default();
    cfg.silent = true;
    let make = load("rule:\n\techo executed\n", cfg).unwrap();
    let first = make.first_target().unwrap();
    assert_eq!(first.name(), "rule");
    let (commands, echoes) = planned_commands(&make, "rule");
    assert_eq!(commands, vec!["echo executed"]);
    assert_eq!(echoes, Vec::<String>::new());
}

#[test]
fn scenario_chained_rules_build_in_order() {
    // `rule1: rule2`, each with an echo of its own name: the build order is
    // rule2 first, so the output order is `rule2` before `rule1`.
    let mut cfg = GlobalConfig::default();
    cfg.silent = true;
    let make = load(
        "rule1: rule2\n\techo rule1\nrule2:\n\techo rule2\n",
        cfg,
    )
    .unwrap();
    let (commands, _echoes) = planned_commands(&make, "rule1");
    assert_eq!(commands, vec!["echo rule2", "echo rule1"]);
}

#[test]
fn scenario_document_without_rules_has_no_target() {
    let make = load("# only a comment\n", GlobalConfig::default()).unwrap();
    let e = make.first_target().unwrap_err();
    assert_eq!(e, ErrorCode::NoTarget { target: None });
    assert_eq!(e.message(), "no targets to execute");
}

#[test]
fn scenario_macro_substitution_reaches_recipes() {
    let mut cfg = GlobalConfig::default();
    cfg.silent = true;
    let make = load("M = executed\nrule:\n\techo $(M)\n", cfg).unwrap();
    let (commands, _echoes) = planned_commands(&make, "rule");
    assert_eq!(commands, vec!["echo executed"]);
}

#[test]
fn scenario_global_silent_special_target() {
    // `.SILENT:` with no prerequisites silences every rule.
    let make = load(
        ".SILENT:\nrule:\n\techo quiet\n",
        GlobalConfig::default(),
    )
    .unwrap();
    let (commands, echoes) = planned_commands(&make, "rule");
    assert_eq!(commands, vec!["echo quiet"]);
    assert_eq!(echoes, Vec::<String>::new());
}
