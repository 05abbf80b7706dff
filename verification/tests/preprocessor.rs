//! The macro preprocessor: the six operators, reference expansion to a
//! fixpoint, ordering, diagnostics, and the paused outside work.

use posixutils_make::parser::preprocessor::{
    generate_macro_table, preprocess, preprocess_full, substitute, MacroTable, PreprocOutcome,
    TableOutcome,
};

fn lines_of(text: &str) -> Vec<Vec<char>> {
    text.lines().map(|l| l.chars().collect()).collect()
}

fn built(text: &str, shells: &MacroTable) -> (MacroTable, Vec<String>) {
    match generate_macro_table(&lines_of(text), shells) {
        TableOutcome::Built(t, errs) => (t, errs),
        TableOutcome::NeedShell(c) => panic!("unexpected shell request: {}", c),
    }
}

#[test]
fn substitute_resolves_paren_and_brace_and_single() {
    let mut table = MacroTable::new();
    table.insert("A".to_string(), "alpha".to_string());
    table.insert("LONG".to_string(), "beta".to_string());
    let (text, hits) = substitute("$A $(LONG) ${LONG}", &table).unwrap();
    assert_eq!(text, "alpha beta beta");
    assert_eq!(hits, 3);
}

#[test]
fn substitute_keeps_recipe_sigils() {
    let table = MacroTable::new();
    let (text, hits) = substitute("$$ $@ $% $? $< $*", &table).unwrap();
    assert_eq!(text, "$$ $@ $% $? $< $*");
    assert_eq!(hits, 0);
}

#[test]
fn substitute_reports_undefined_macro() {
    let table = MacroTable::new();
    let err = substitute("x $(UNDEFINED) y", &table).unwrap_err();
    assert_eq!(err.0, vec!["Undefined macro `UNDEFINED`".to_string()]);
}

#[test]
fn substitute_collects_all_diagnostics() {
    let table = MacroTable::new();
    let err = substitute("$(A) $(B", &table).unwrap_err();
    assert_eq!(
        err.0,
        vec![
            "Undefined macro `A`".to_string(),
            "Unexpected EOF at the end of macro expansion".to_string(),
        ]
    );
}

#[test]
fn table_six_operators() {
    let text = "A = one\nB := $(A)x\nC ?= c1\nC ?= c2\nD = d1\nD += d2\nE ::= $(A)\n";
    let shells = MacroTable::new();
    let (table, errs) = built(text, &shells);
    assert_eq!(errs, Vec::<String>::new());
    assert_eq!(table.get(&"A".to_string()), Some(&"one".to_string()));
    assert_eq!(table.get(&"B".to_string()), Some(&"onex".to_string()));
    assert_eq!(table.get(&"C".to_string()), Some(&"c1".to_string()));
    assert_eq!(table.get(&"D".to_string()), Some(&"d1 d2".to_string()));
    assert_eq!(table.get(&"E".to_string()), Some(&"one".to_string()));
}

#[test]
fn table_immediate_uses_preceding_definitions_only() {
    // Macro ordering: B's `:=` sees A's earlier value, never the later one.
    let text = "A = first\nB := $(A)\nA = second\n";
    let shells = MacroTable::new();
    let (table, errs) = built(text, &shells);
    assert_eq!(errs, Vec::<String>::new());
    assert_eq!(table.get(&"B".to_string()), Some(&"first".to_string()));
    assert_eq!(table.get(&"A".to_string()), Some(&"second".to_string()));
}

#[test]
fn table_shell_assignment_pauses_and_resumes() {
    let text = "CMD = echo hi\nOUT != $(CMD)\n";
    let shells = MacroTable::new();
    match generate_macro_table(&lines_of(text), &shells) {
        TableOutcome::NeedShell(c) => assert_eq!(c, "echo hi"),
        TableOutcome::Built(..) => panic!("expected a shell request"),
    }
    let mut shells = MacroTable::new();
    shells.insert("echo hi".to_string(), "hi\n".to_string());
    let (table, errs) = built(text, &shells);
    assert_eq!(errs, Vec::<String>::new());
    // captured output is stored with trailing newlines trimmed
    assert_eq!(table.get(&"OUT".to_string()), Some(&"hi".to_string()));
}

#[test]
fn table_malformed_lines_are_diagnosed() {
    let text = "A ! = one\n= nothing\n";
    let shells = MacroTable::new();
    let (_table, errs) = built(text, &shells);
    assert_eq!(
        errs,
        vec![
            "Expected `=` after `!` in macro definition".to_string(),
            "Empty ident".to_string(),
        ]
    );
}

#[test]
fn table_skips_recipe_and_comment_lines() {
    let text = "A = ok\n\tcp x=y z\n# B = not an assignment\n";
    let shells = MacroTable::new();
    let (table, errs) = built(text, &shells);
    assert_eq!(errs, Vec::<String>::new());
    assert_eq!(table.get(&"A".to_string()), Some(&"ok".to_string()));
    assert_eq!(table.get(&"B".to_string()), None);
}

#[test]
fn preprocess_expands_document_to_fixpoint() {
    let out = preprocess("A = $(B)\nB = x\nrule:\n\techo $(A)\n").unwrap();
    assert_eq!(out, "A = x\nB = x\nrule:\n\techo x\n");
}

#[test]
fn preprocess_self_reference_is_reported_not_looped() {
    // Fixpoint termination: a self-referencing macro is detected and
    // reported instead of substituting forever.
    let err = preprocess("X = $(X)\nrule:\n\techo $(X)\n").unwrap_err();
    assert_eq!(
        err.0,
        vec!["Recursive macro reference in the makefile".to_string()]
    );
}

#[test]
fn preprocess_immediate_self_reference_is_reported() {
    let err = preprocess("A = $(B)\nB = $(A)\nC := $(A)\n").unwrap_err();
    assert_eq!(err.0, vec!["Recursive macro reference in `C`".to_string()]);
}

#[test]
fn preprocess_undefined_reference_fails_with_name() {
    // A value referencing an undefined macro is a collected diagnostic
    // naming it; the pass fails rather than substituting empty text.
    let err = preprocess("A = $(UNDEFINED)\n").unwrap_err();
    assert_eq!(err.0, vec!["Undefined macro `UNDEFINED`".to_string()]);
}

#[test]
fn preprocess_full_resolves_inclusion_lines() {
    let keyword = format!("{}{}", "inc", "lude");
    let source = format!("A = x\n{} extra.mk\nrule:\n\techo $(A)$(B)\n", keyword);
    let files = MacroTable::new();
    let shells = MacroTable::new();
    let path = match preprocess_full(&source, &shells, &files) {
        PreprocOutcome::NeedFile(p) => p,
        other => panic!("expected a file request, got {:?}", outcome_name(&other)),
    };
    assert_eq!(path, "extra.mk");
    let mut files = MacroTable::new();
    files.insert("extra.mk".to_string(), "B = y".to_string());
    match preprocess_full(&source, &shells, &files) {
        PreprocOutcome::Done(text) => {
            assert_eq!(text, "A = x\nB = y\nrule:\n\techo xy\n");
        },
        other => panic!("expected success, got {:?}", outcome_name(&other)),
    }
}

#[test]
fn preprocess_reports_outside_work_it_cannot_do() {
    let err = preprocess("OUT != echo hi\n").unwrap_err();
    assert_eq!(err.0, vec!["Command execution failed".to_string()]);

    let keyword = format!("{}{}", "inc", "lude");
    let err = preprocess(&format!("{} other.mk\n", keyword)).unwrap_err();
    assert_eq!(err.0, vec!["Cannot read file `other.mk`".to_string()]);
}

fn outcome_name(o: &PreprocOutcome) -> &'static str {
    match o {
        PreprocOutcome::Done(_) => "Done",
        PreprocOutcome::Failed(_) => "Failed",
        PreprocOutcome::NeedShell(_) => "NeedShell",
        PreprocOutcome::NeedFile(_) => "NeedFile",
    }
}
