//! The smaller model pieces: error codes and messages, the default
//! configuration, the built-in suffixes, recipe prefixes, and the
//! interrupt-cleanup decision.

use posixutils_make::config::Config as GlobalConfig;
use posixutils_make::default_rules::Suffix;
use posixutils_make::error_code::ErrorCode;
use posixutils_make::rule::recipe::Recipe;
use posixutils_make::signal_handler::interrupt_action;

#[test]
fn error_codes_form_a_closed_enumeration() {
    assert_eq!(ErrorCode::ExecutionError { exit_code: None }.code(), 1);
    assert_eq!(ErrorCode::IoError("x".to_string()).code(), 2);
    assert_eq!(ErrorCode::ParseError("x".to_string()).code(), 3);
    assert_eq!(ErrorCode::NoMakefile.code(), 4);
    assert_eq!(ErrorCode::NoTarget { target: None }.code(), 5);
    assert_eq!(ErrorCode::NoRule { rule: "r".to_string() }.code(), 6);
    assert_eq!(
        ErrorCode::RecursivePrerequisite { origin: "r".to_string() }.code(),
        7
    );
    assert_eq!(
        ErrorCode::SpecialTargetConstraintNotFulfilled {
            target: ".POSIX".to_string(),
            constraint: posixutils_make::special_target::Error::MustNotHaveRecipes,
        }
        .code(),
        8
    );
}

#[test]
fn error_messages() {
    assert_eq!(ErrorCode::NoMakefile.message(), "no makefile");
    assert_eq!(
        ErrorCode::ParseError("unexpected token None".to_string()).message(),
        "parse error: unexpected token None"
    );
    assert_eq!(
        ErrorCode::NoTarget { target: Some("x".to_string()) }.message(),
        "no target 'x'"
    );
    assert_eq!(
        ErrorCode::NoRule { rule: "x".to_string() }.message(),
        "no rule 'x'"
    );
    assert_eq!(
        ErrorCode::ExecutionError { exit_code: Some(-3) }.message(),
        "execution error: -3"
    );
}

#[test]
fn default_config_is_all_off_with_builtin_suffixes() {
    let c = GlobalConfig::default();
    assert!(!c.ignore && !c.dry_run && !c.silent && !c.touch);
    assert!(!c.env_macros && !c.quit && !c.clear && !c.print);
    assert!(!c.keep_going && !c.terminate && !c.precious);
    assert_eq!(
        c.default_rules,
        vec![".o", ".c", ".y", ".l", ".a", ".sh", ".c~", ".y~", ".l~", ".sh~"]
    );
}

#[test]
fn suffixes_from_extension() {
    assert_eq!(Suffix::from_extension(".o"), Some(Suffix::O));
    assert_eq!(Suffix::from_extension(".sh"), Some(Suffix::Sh));
    assert_eq!(Suffix::from_extension(".c~"), Some(Suffix::C_Tilde));
    assert_eq!(Suffix::from_extension(".sh~"), Some(Suffix::Sh_Tilde));
    assert_eq!(Suffix::from_extension(".rs"), None);
    assert_eq!(Suffix::from_extension("o"), None);
    assert_eq!(Suffix::from_extension(""), None);
}

#[test]
fn recipe_prefixes_parse_and_strip() {
    let r = Recipe::new("-@+echo hi".to_string());
    assert!(r.config.ignore);
    assert!(r.config.silent);
    assert!(r.config.force_run);
    assert_eq!(r.inner(), "echo hi");

    let plain = Recipe::new("echo hi".to_string());
    assert!(!plain.config.ignore && !plain.config.silent && !plain.config.force_run);
    assert_eq!(plain.inner(), "echo hi");
}

#[test]
fn interrupt_deletes_only_non_precious_targets() {
    let action = interrupt_action(&Some(("half.o".to_string(), false)), 2);
    assert!(action.announce);
    assert_eq!(action.delete, Some("half.o".to_string()));
    assert_eq!(action.exit_code, 130);

    let action = interrupt_action(&Some(("keep.o".to_string(), true)), 15);
    assert!(action.announce);
    assert_eq!(action.delete, None);
    assert_eq!(action.exit_code, 143);

    let action = interrupt_action(&None, 1);
    assert!(!action.announce);
    assert_eq!(action.delete, None);
    assert_eq!(action.exit_code, 129);
}
