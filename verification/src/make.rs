//! The make engine: builds the domain model from parsed rule sources,
//! validating special targets and applying their modifiers, and walks the
//! dependency graph — each target at most once, prerequisites first, every
//! cycle detected and reported instead of recursed into forever.
//!
//! The engine plans; it does not stat, spawn or touch. The program around
//! the library asks [`Make::build_order`] what to build and in what order,
//! checks staleness through [`is_stale`] with the modification times it
//! gathered, and runs each stale rule's [`crate::rule::Rule::run_plan`].

use vstd::prelude::*;

use crate::config::Config as GlobalConfig;
use crate::error_code::ErrorCode;
use crate::rule::config::Config as RuleConfig;
use crate::rule::recipe::recipe_parse;
use crate::rule::target::{classify, target_name_spec, Target, TargetV};
use crate::rule::{Rule, RuleV};
use crate::special_target::{
    special_name_spec, special_of, violation_spec, Error as SpecialError, SpecialTarget,
};

verus! {

/// One rule as the parser delivers it: raw target names, prerequisite names
/// and recipe lines.
#[derive(Debug, Clone, PartialEq, Eq)]
pub struct RuleSource {
    pub targets: Vec<String>,
    pub prerequisites: Vec<String>,
    pub recipes: Vec<String>,
}

/// The mathematical shape of a rule source.
pub struct RuleSrcV {
    pub targets: Seq<Seq<char>>,
    pub prerequisites: Seq<Seq<char>>,
    pub recipes: Seq<Seq<char>>,
}

impl View for RuleSource {
    type V = RuleSrcV;

    open spec fn view(&self) -> RuleSrcV {
        RuleSrcV {
            targets: self.targets.deep_view(),
            prerequisites: self.prerequisites.deep_view(),
            recipes: self.recipes.deep_view(),
        }
    }
}

/// The views of a rule-source vector.
pub open spec fn sources_view(srcs: Seq<RuleSource>) -> Seq<RuleSrcV> {
    Seq::new(srcs.len(), |i: int| srcs[i]@)
}

/// The views of a rule vector.
pub open spec fn rules_view(rs: Seq<Rule>) -> Seq<RuleV> {
    Seq::new(rs.len(), |i: int| rs[i]@)
}

/// The special target a source is for: its first target's reserved name.
pub open spec fn src_special(rs: RuleSrcV) -> Option<SpecialTarget> {
    if rs.targets.len() > 0 {
        special_of(rs.targets[0])
    } else {
        None
    }
}

/// The first special-target constraint violation among `srcs[i..]`, with
/// the reserved name it concerns.
pub open spec fn first_violation(srcs: Seq<RuleSrcV>, i: int) -> Option<(Seq<char>, SpecialError)>
    decreases srcs.len() - i
    when 0 <= i <= srcs.len()
{
    if i >= srcs.len() {
        None
    } else {
        match src_special(srcs[i]) {
            Some(st) => match violation_spec(
                st,
                srcs[i].prerequisites.len() > 0,
                srcs[i].recipes.len() > 0,
            ) {
                Some(err) => Some((special_name_spec(st), err)),
                None => first_violation(srcs, i + 1),
            },
            None => first_violation(srcs, i + 1),
        }
    }
}

/// Whether some source from `i` on sets special target `st` globally: an
/// `st` rule with no prerequisites.
pub open spec fn global_flag(srcs: Seq<RuleSrcV>, st: SpecialTarget, i: int) -> bool
    decreases srcs.len() - i
    when 0 <= i <= srcs.len()
{
    if i >= srcs.len() {
        false
    } else {
        (src_special(srcs[i]) == Some(st) && srcs[i].prerequisites.len() == 0) || global_flag(
            srcs,
            st,
            i + 1,
        )
    }
}

/// The names that special target `st` marks, from source `i` on: the
/// prerequisites of every `st` rule, in order.
pub open spec fn mark_names(srcs: Seq<RuleSrcV>, st: SpecialTarget, i: int) -> Seq<Seq<char>>
    decreases srcs.len() - i
    when 0 <= i <= srcs.len()
{
    if i >= srcs.len() {
        Seq::empty()
    } else if src_special(srcs[i]) == Some(st) {
        srcs[i].prerequisites + mark_names(srcs, st, i + 1)
    } else {
        mark_names(srcs, st, i + 1)
    }
}

/// The recipes of the first `.DEFAULT` rule, if any.
pub open spec fn first_default(srcs: Seq<RuleSrcV>, i: int) -> Option<Seq<Seq<char>>>
    decreases srcs.len() - i
    when 0 <= i <= srcs.len()
{
    if i >= srcs.len() {
        None
    } else if src_special(srcs[i]) == Some(SpecialTarget::Default) {
        Some(srcs[i].recipes)
    } else {
        first_default(srcs, i + 1)
    }
}

/// The ordinary (non-special) sources among `srcs[i..]`, in order.
pub open spec fn ordinaries(srcs: Seq<RuleSrcV>, i: int) -> Seq<RuleSrcV>
    decreases srcs.len() - i
    when 0 <= i <= srcs.len()
{
    if i >= srcs.len() {
        Seq::empty()
    } else if src_special(srcs[i]) is Some {
        ordinaries(srcs, i + 1)
    } else {
        seq![srcs[i]] + ordinaries(srcs, i + 1)
    }
}

/// Whether any of `names` is in `marks`.
pub open spec fn any_name_in(names: Seq<Seq<char>>, marks: Seq<Seq<char>>) -> bool {
    exists|j: int| 0 <= j < names.len() && marks.contains(#[trigger] names[j])
}

/// The per-rule flags a source ends up with: a flag is set when any of the
/// rule's targets is named by the corresponding special target.
pub open spec fn src_config(srcs: Seq<RuleSrcV>, rs: RuleSrcV) -> RuleConfig {
    RuleConfig {
        ignore: any_name_in(rs.targets, mark_names(srcs, SpecialTarget::Ignore, 0)),
        silent: any_name_in(rs.targets, mark_names(srcs, SpecialTarget::Silent, 0)),
        phony: any_name_in(rs.targets, mark_names(srcs, SpecialTarget::Phony, 0)),
        precious: any_name_in(rs.targets, mark_names(srcs, SpecialTarget::Precious, 0)),
    }
}

/// Whether a built rule faithfully represents a source under `srcs`' marks.
pub open spec fn rule_matches(rv: RuleV, rs: RuleSrcV, srcs: Seq<RuleSrcV>) -> bool {
    &&& rv.targets.len() == rs.targets.len()
    &&& (forall|j: int| 0 <= j < rs.targets.len() ==> rv.targets[j] == classify(#[trigger] rs.targets[j]))
    &&& rv.prerequisites == rs.prerequisites
    &&& rv.recipes.len() == rs.recipes.len()
    &&& (forall|j: int| 0 <= j < rs.recipes.len() ==> rv.recipes[j] == recipe_parse(#[trigger] rs.recipes[j]))
    &&& rv.config == src_config(srcs, rs)
}

/// The make engine: the domain rules, the `.DEFAULT` rule if any, the macro
/// bindings and the global configuration.
#[derive(Debug)]
pub struct Make {
    pub rules: Vec<Rule>,
    pub default_rule: Option<Rule>,
    pub macros: Vec<(String, String)>,
    pub config: GlobalConfig,
}

fn clone_strings(v: &Vec<String>) -> (r: Vec<String>)
    ensures
        r.deep_view() == v.deep_view(),
{
    let mut r: Vec<String> = Vec::new();
    let n = v.len();
    let mut i: usize = 0;
    while i < n
        invariant
            i <= n,
            n == v@.len(),
            r@.len() == i,
            forall|k: int| 0 <= k < i ==> r@[k]@ == v@[k]@,
        decreases n - i,
    {
        r.push(v[i].clone());
        i = i + 1;
    }
    proof {
        assert(r.deep_view() =~= v.deep_view());
    }
    r
}

fn contains_name(v: &Vec<String>, name: &String) -> (r: bool)
    ensures
        r == v.deep_view().contains(name@),
{
    let n = v.len();
    let mut i: usize = 0;
    while i < n
        invariant
            i <= n,
            n == v@.len(),
            forall|k: int| 0 <= k < i ==> v.deep_view()[k] != name@,
        decreases n - i,
    {
        if v[i] == *name {
            proof {
                assert(v.deep_view()[i as int] == name@);
            }
            return true;
        }
        proof {
            assert(v.deep_view()[i as int] == v@[i as int]@);
        }
        i = i + 1;
    }
    proof {
        assert(forall|k: int| 0 <= k < v.deep_view().len() ==> v.deep_view()[k] != name@);
    }
    false
}

fn any_name_in_exec(names: &Vec<String>, marks: &Vec<String>) -> (r: bool)
    ensures
        r == any_name_in(names.deep_view(), marks.deep_view()),
{
    let n = names.len();
    let mut i: usize = 0;
    while i < n
        invariant
            i <= n,
            n == names@.len(),
            forall|k: int| 0 <= k < i ==> !marks.deep_view().contains(names.deep_view()[k]),
        decreases n - i,
    {
        if contains_name(marks, &names[i]) {
            proof {
                assert(marks.deep_view().contains(names.deep_view()[i as int]));
            }
            return true;
        }
        proof {
            assert(names.deep_view()[i as int] == names@[i as int]@);
        }
        i = i + 1;
    }
    false
}

impl Make {
    /// Builds the engine from parsed rule sources, macro bindings and the
    /// command-line configuration.
    ///
    /// Every special-target rule is validated against its structural
    /// constraint — the first violation is the error — and applied:
    /// `.SILENT`, `.IGNORE` and `.PRECIOUS` set their flag globally when
    /// bare, or mark their prerequisites; `.PHONY` marks its prerequisites;
    /// the first `.DEFAULT`'s recipe is kept for requested targets without
    /// a rule. The remaining sources become the domain rules, in order,
    /// each with the per-rule flags its targets were marked with.
    pub fn try_from(
        sources: Vec<RuleSource>,
        macros: Vec<(String, String)>,
        config: GlobalConfig,
    ) -> (r: Result<Make, ErrorCode>)
        ensures
            ({
                let srcs = sources_view(sources@);
                match r {
                    Err(e) => first_violation(srcs, 0) matches Some(v) && violation_err_matches(
                        e,
                        v.0,
                        v.1,
                    ),
                    Ok(m) => {
                        &&& first_violation(srcs, 0) is None
                        &&& m.config.ignore == (config.ignore || global_flag(
                            srcs,
                            SpecialTarget::Ignore,
                            0,
                        ))
                        &&& m.config.silent == (config.silent || global_flag(
                            srcs,
                            SpecialTarget::Silent,
                            0,
                        ))
                        &&& m.config.precious == (config.precious || global_flag(
                            srcs,
                            SpecialTarget::Precious,
                            0,
                        ))
                        &&& m.config.dry_run == config.dry_run
                        &&& m.config.touch == config.touch
                        &&& m.config.env_macros == config.env_macros
                        &&& m.config.quit == config.quit
                        &&& m.config.clear == config.clear
                        &&& m.config.print == config.print
                        &&& m.config.keep_going == config.keep_going
                        &&& m.config.terminate == config.terminate
                        &&& m.rules@.len() == ordinaries(srcs, 0).len()
                        &&& (forall|i: int|
                            0 <= i < m.rules@.len() ==> rule_matches(
                                (#[trigger] m.rules@[i])@,
                                ordinaries(srcs, 0)[i],
                                srcs,
                            ))
                        &&& (match first_default(srcs, 0) {
                            Some(recipes) => m.default_rule matches Some(dr) && dr@.recipes.len()
                                == recipes.len() && (forall|j: int|
                                0 <= j < recipes.len() ==> dr@.recipes[j] == recipe_parse(
                                    #[trigger] recipes[j],
                                )) && dr@.prerequisites.len() == 0,
                            None => m.default_rule is None,
                        })
                        &&& m.macros == macros
                    },
                }
            }),
    {
        let ghost srcs = sources_view(sources@);
        let n = sources.len();
        // Validation: the first special-target constraint violation aborts.
        let mut i: usize = 0;
        while i < n
            invariant
                i <= n,
                n == sources@.len(),
                srcs == sources_view(sources@),
                first_violation(srcs, 0) == first_violation(srcs, i as int),
            decreases n - i,
        {
            let src = &sources[i];
            proof {
                assert(srcs[i as int] == src@);
            }
            if src.targets.len() > 0 {
                if let Some(Target::Special(st)) = Target::try_parse_special(&src.targets[0]) {
                    proof {
                        assert(src@.targets[0] == src.targets@[0]@);
                        assert(src_special(srcs[i as int]) == Some(st));
                    }
                    if let Some(err) = crate::special_target::validate(
                        st,
                        src.prerequisites.len() > 0,
                        src.recipes.len() > 0,
                    ) {
                        let name = st.name();
                        let e = ErrorCode::SpecialTargetConstraintNotFulfilled {
                            target: name,
                            constraint: err,
                        };
                        proof {
                            assert(first_violation(srcs, i as int) == Some(
                                (special_name_spec(st), err),
                            ));
                        }
                        return Err(e);
                    }
                } else {
                    proof {
                        assert(src_special(srcs[i as int]) is None);
                    }
                }
            } else {
                proof {
                    assert(src_special(srcs[i as int]) is None);
                }
            }
            i = i + 1;
        }
        // Marks: what the special targets set globally or per name.
        let mut g_ignore = false;
        let mut g_silent = false;
        let mut g_precious = false;
        let mut ignore_names: Vec<String> = Vec::new();
        let mut silent_names: Vec<String> = Vec::new();
        let mut precious_names: Vec<String> = Vec::new();
        let mut phony_names: Vec<String> = Vec::new();
        let mut default_recipes: Option<Vec<String>> = None;
        let mut j: usize = 0;
        proof {
            assert(ignore_names.deep_view() =~= Seq::<Seq<char>>::empty());
            assert(silent_names.deep_view() =~= Seq::<Seq<char>>::empty());
            assert(precious_names.deep_view() =~= Seq::<Seq<char>>::empty());
            assert(phony_names.deep_view() =~= Seq::<Seq<char>>::empty());
        }
        while j < n
            invariant
                j <= n,
                n == sources@.len(),
                srcs == sources_view(sources@),
                global_flag(srcs, SpecialTarget::Ignore, 0) == (g_ignore || global_flag(
                    srcs,
                    SpecialTarget::Ignore,
                    j as int,
                )),
                global_flag(srcs, SpecialTarget::Silent, 0) == (g_silent || global_flag(
                    srcs,
                    SpecialTarget::Silent,
                    j as int,
                )),
                global_flag(srcs, SpecialTarget::Precious, 0) == (g_precious || global_flag(
                    srcs,
                    SpecialTarget::Precious,
                    j as int,
                )),
                mark_names(srcs, SpecialTarget::Ignore, 0) == ignore_names.deep_view()
                    + mark_names(srcs, SpecialTarget::Ignore, j as int),
                mark_names(srcs, SpecialTarget::Silent, 0) == silent_names.deep_view()
                    + mark_names(srcs, SpecialTarget::Silent, j as int),
                mark_names(srcs, SpecialTarget::Precious, 0) == precious_names.deep_view()
                    + mark_names(srcs, SpecialTarget::Precious, j as int),
                mark_names(srcs, SpecialTarget::Phony, 0) == phony_names.deep_view() + mark_names(
                    srcs,
                    SpecialTarget::Phony,
                    j as int,
                ),
                match default_recipes {
                    Some(v) => first_default(srcs, 0) == Some(v.deep_view()),
                    None => first_default(srcs, 0) == first_default(srcs, j as int),
                },
            decreases n - j,
        {
            let src = &sources[j];
            proof {
                assert(srcs[j as int] == src@);
            }
            let mut handled_special = false;
            if src.targets.len() > 0 {
                if let Some(Target::Special(st)) = Target::try_parse_special(&src.targets[0]) {
                    handled_special = true;
                    proof {
                        assert(src_special(srcs[j as int]) == Some(st));
                    }
                    match st {
                        SpecialTarget::Ignore => {
                            if src.prerequisites.len() == 0 {
                                g_ignore = true;
                            } else {
                                let mut more = clone_strings(&src.prerequisites);
                                let ghost before = ignore_names.deep_view();
                                ignore_names.append(&mut more);
                                proof {
                                    assert(ignore_names.deep_view() =~= before
                                        + src@.prerequisites);
                                }
                            }
                        },
                        SpecialTarget::Silent => {
                            if src.prerequisites.len() == 0 {
                                g_silent = true;
                            } else {
                                let mut more = clone_strings(&src.prerequisites);
                                let ghost before = silent_names.deep_view();
                                silent_names.append(&mut more);
                                proof {
                                    assert(silent_names.deep_view() =~= before
                                        + src@.prerequisites);
                                }
                            }
                        },
                        SpecialTarget::Precious => {
                            if src.prerequisites.len() == 0 {
                                g_precious = true;
                            } else {
                                let mut more = clone_strings(&src.prerequisites);
                                let ghost before = precious_names.deep_view();
                                precious_names.append(&mut more);
                                proof {
                                    assert(precious_names.deep_view() =~= before
                                        + src@.prerequisites);
                                }
                            }
                        },
                        SpecialTarget::Phony => {
                            let mut more = clone_strings(&src.prerequisites);
                            let ghost before = phony_names.deep_view();
                            phony_names.append(&mut more);
                            proof {
                                assert(phony_names.deep_view() =~= before + src@.prerequisites);
                            }
                        },
                        SpecialTarget::Default => {
                            if default_recipes.is_none() {
                                default_recipes = Some(clone_strings(&src.recipes));
                            }
                        },
                        _ => {},
                    }
                }
            }
            proof {
                if !handled_special {
                    assert(src_special(srcs[j as int]) is None);
                }
                // A bare special rule adds no names; a named one sets no
                // global flag; other kinds touch neither.
                assert(ignore_names.deep_view() + mark_names(srcs, SpecialTarget::Ignore, j as int
                    + 1) =~= ignore_names.deep_view() + mark_names(
                    srcs,
                    SpecialTarget::Ignore,
                    j as int + 1,
                ));
            }
            j = j + 1;
        }
        // Build the ordinary rules with the flags their targets are marked
        // with.
        let mut rules: Vec<Rule> = Vec::new();
        let mut k: usize = 0;
        proof {
            assert(rules_view(rules@) =~= Seq::<RuleV>::empty());
        }
        while k < n
            invariant
                k <= n,
                n == sources@.len(),
                srcs == sources_view(sources@),
                mark_names(srcs, SpecialTarget::Ignore, 0) == ignore_names.deep_view(),
                mark_names(srcs, SpecialTarget::Silent, 0) == silent_names.deep_view(),
                mark_names(srcs, SpecialTarget::Precious, 0) == precious_names.deep_view(),
                mark_names(srcs, SpecialTarget::Phony, 0) == phony_names.deep_view(),
                rules@.len() == ordinaries_prefix(srcs, k as int).len(),
                forall|m: int|
                    0 <= m < rules@.len() ==> rule_matches(
                        (#[trigger] rules@[m])@,
                        ordinaries_prefix(srcs, k as int)[m],
                        srcs,
                    ),
            decreases n - k,
        {
            let src = &sources[k];
            proof {
                assert(srcs[k as int] == src@);
            }
            let mut is_special = false;
            if src.targets.len() > 0 {
                if let Some(_t) = Target::try_parse_special(&src.targets[0]) {
                    is_special = true;
                }
            }
            proof {
                if is_special {
                    assert(src_special(srcs[k as int]) is Some);
                } else {
                    assert(src_special(srcs[k as int]) is None);
                }
                assert(ordinaries_prefix(srcs, k as int + 1) =~= (if src_special(
                    srcs[k as int],
                ) is Some {
                    ordinaries_prefix(srcs, k as int)
                } else {
                    ordinaries_prefix(srcs, k as int).push(srcs[k as int])
                }));
            }
            if !is_special {
                let cfg = RuleConfig {
                    ignore: any_name_in_exec(&src.targets, &ignore_names),
                    silent: any_name_in_exec(&src.targets, &silent_names),
                    phony: any_name_in_exec(&src.targets, &phony_names),
                    precious: any_name_in_exec(&src.targets, &precious_names),
                };
                let rule = Rule::new(
                    clone_strings(&src.targets),
                    clone_strings(&src.prerequisites),
                    clone_strings(&src.recipes),
                    cfg,
                );
                proof {
                    assert(rule_matches(rule@, srcs[k as int], srcs));
                }
                rules.push(rule);
            }
            k = k + 1;
        }
        let default_rule: Option<Rule>;
        match default_recipes {
            Some(recipes) => {
                let mut names: Vec<String> = Vec::new();
                names.push(String::from_str(".DEFAULT"));
                let dr = Rule::new(names, Vec::new(), recipes, RuleConfig {
                    ignore: false,
                    silent: false,
                    phony: false,
                    precious: false,
                });
                default_rule = Some(dr);
            },
            None => {
                default_rule = None;
            },
        }
        let mut config = config;
        config.ignore = config.ignore || g_ignore;
        config.silent = config.silent || g_silent;
        config.precious = config.precious || g_precious;
        proof {
            lemma_ordinaries_split(srcs, n as int);
            assert(ordinaries(srcs, n as int) =~= Seq::<RuleSrcV>::empty());
            assert(ordinaries_prefix(srcs, n as int) + ordinaries(srcs, n as int)
                =~= ordinaries_prefix(srcs, n as int));
        }
        Ok(Make { rules, default_rule, macros, config })
    }
}

/// The ordinary sources among the first `k`.
pub open spec fn ordinaries_prefix(srcs: Seq<RuleSrcV>, k: int) -> Seq<RuleSrcV>
    decreases k
    when 0 <= k <= srcs.len()
{
    if k <= 0 {
        Seq::empty()
    } else if src_special(srcs[k - 1]) is Some {
        ordinaries_prefix(srcs, k - 1)
    } else {
        ordinaries_prefix(srcs, k - 1).push(srcs[k - 1])
    }
}

/// The two prefix/suffix decompositions agree.
proof fn lemma_ordinaries_split(srcs: Seq<RuleSrcV>, k: int)
    requires
        0 <= k <= srcs.len(),
    ensures
        ordinaries(srcs, 0) == ordinaries_prefix(srcs, k) + ordinaries(srcs, k),
    decreases k,
{
    if k == 0 {
        assert(ordinaries_prefix(srcs, 0) + ordinaries(srcs, 0) =~= ordinaries(srcs, 0));
    } else {
        lemma_ordinaries_split(srcs, k - 1);
        lemma_ordinaries_step(srcs, k - 1);
        if src_special(srcs[k - 1]) is Some {
            assert(ordinaries_prefix(srcs, k) + ordinaries(srcs, k) =~= ordinaries_prefix(
                srcs,
                k - 1,
            ) + ordinaries(srcs, k - 1));
        } else {
            assert(ordinaries_prefix(srcs, k) + ordinaries(srcs, k) =~= ordinaries_prefix(
                srcs,
                k - 1,
            ) + (seq![srcs[k - 1]] + ordinaries(srcs, k)));
        }
    }
}

proof fn lemma_ordinaries_step(srcs: Seq<RuleSrcV>, k: int)
    requires
        0 <= k < srcs.len(),
    ensures
        ordinaries(srcs, k) == (if src_special(srcs[k]) is Some {
            ordinaries(srcs, k + 1)
        } else {
            seq![srcs[k]] + ordinaries(srcs, k + 1)
        }),
{
}

/// Whether `e` is the constraint error for reserved name `n` and
/// constraint `c`.
pub open spec fn violation_err_matches(e: ErrorCode, n: Seq<char>, c: SpecialError) -> bool {
    e matches ErrorCode::SpecialTargetConstraintNotFulfilled { target, constraint } && target@ == n
        && constraint == c
}

// ---------------------------------------------------------------------------
// The dependency walk
// ---------------------------------------------------------------------------

/// Whether some target of `rv` is called `name`.
pub open spec fn rule_has_target(rv: RuleV, name: Seq<char>) -> bool {
    exists|j: int|
        0 <= j < rv.targets.len() && target_name_spec(#[trigger] rv.targets[j]) == name
}

/// The first rule at or after `i` with a target called `name`.
pub open spec fn find_rule_spec(rules: Seq<RuleV>, name: Seq<char>, i: int) -> Option<int>
    decreases rules.len() - i
    when 0 <= i <= rules.len()
{
    if i >= rules.len() {
        None
    } else if rule_has_target(rules[i], name) {
        Some(i)
    } else {
        find_rule_spec(rules, name, i + 1)
    }
}

/// The threaded state of a walk: targets already processed, and the
/// build order so far.
pub struct WalkState {
    pub done: Seq<Seq<char>>,
    pub order: Seq<Seq<char>>,
}

/// What a walk produces: the grown state, or the origin of a cycle.
pub enum Walk {
    Finished(WalkState),
    Cycle(Seq<char>),
}

/// Depth-first walk of one target: nothing happens when it is already
/// done; a target on the in-progress stack is a recursive prerequisite;
/// a target without a rule is a plain source; otherwise its prerequisites
/// are walked first and the target itself is appended to the order.
pub open spec fn walk_spec(
    rules: Seq<RuleV>,
    name: Seq<char>,
    stack: Seq<Seq<char>>,
    st: WalkState,
    fuel: nat,
) -> Walk
    decreases fuel, 0int,
{
    if st.done.contains(name) {
        Walk::Finished(st)
    } else if stack.contains(name) {
        Walk::Cycle(name)
    } else if fuel == 0 {
        Walk::Cycle(name)
    } else {
        match find_rule_spec(rules, name, 0) {
            None => Walk::Finished(st),
            Some(idx) => match walk_list_spec(
                rules,
                rules[idx].prerequisites,
                0,
                stack.push(name),
                st,
                (fuel - 1) as nat,
            ) {
                Walk::Finished(st2) => Walk::Finished(
                    WalkState { done: st2.done.push(name), order: st2.order.push(name) },
                ),
                c => c,
            },
        }
    }
}

/// Walks `ps[i..]` in order, threading the state; the first cycle wins.
pub open spec fn walk_list_spec(
    rules: Seq<RuleV>,
    ps: Seq<Seq<char>>,
    i: int,
    stack: Seq<Seq<char>>,
    st: WalkState,
    fuel: nat,
) -> Walk
    decreases fuel, ps.len() - i + 1
    when 0 <= i <= ps.len()
{
    if i >= ps.len() {
        Walk::Finished(st)
    } else {
        match walk_spec(rules, ps[i], stack, st, fuel) {
            Walk::Finished(st2) => walk_list_spec(rules, ps, i + 1, stack, st2, fuel),
            c => c,
        }
    }
}

fn find_rule_idx(rules: &Vec<Rule>, name: &String) -> (r: Option<usize>)
    ensures
        match r {
            Some(idx) => find_rule_spec(rules_view(rules@), name@, 0) == Some(idx as int) && idx
                < rules@.len(),
            None => find_rule_spec(rules_view(rules@), name@, 0) is None,
        },
{
    let ghost rv = rules_view(rules@);
    let n = rules.len();
    let mut i: usize = 0;
    while i < n
        invariant
            i <= n,
            n == rules@.len(),
            rv == rules_view(rules@),
            find_rule_spec(rv, name@, 0) == find_rule_spec(rv, name@, i as int),
        decreases n - i,
    {
        let targets = rules[i].targets();
        let m = targets.len();
        let mut j: usize = 0;
        let mut found = false;
        while j < m && !found
            invariant
                j <= m,
                i < n,
                n == rules@.len(),
                rv == rules_view(rules@),
                m == rv[i as int].targets.len(),
                m == rules@[i as int]@.targets.len(),
                !found ==> forall|k: int|
                    0 <= k < j ==> target_name_spec(#[trigger] rv[i as int].targets[k]) != name@,
                found ==> rule_has_target(rv[i as int], name@),
            decreases m - j,
        {
            let tn = rules[i].targets()[j].name();
            proof {
                assert(rules@[i as int]@.targets[j as int] == rv[i as int].targets[j as int]);
            }
            if tn == *name {
                proof {
                    assert(target_name_spec(rv[i as int].targets[j as int]) == name@);
                }
                found = true;
            }
            j = j + 1;
        }
        if found {
            return Some(i);
        }
        proof {
            assert(!rule_has_target(rv[i as int], name@));
        }
        i = i + 1;
    }
    None
}

impl Make {
    /// The first target defined in the document: the first target of the
    /// first rule. With no rules at all there is nothing to execute.
    pub fn first_target(&self) -> (r: Result<Target, ErrorCode>)
        ensures
            match first_target_spec(rules_view(self.rules@), 0) {
                Some(tv) => r matches Ok(t) && t@ == tv,
                None => r == Err::<Target, ErrorCode>(ErrorCode::NoTarget { target: None }),
            },
    {
        let ghost rv = rules_view(self.rules@);
        let n = self.rules.len();
        let mut i: usize = 0;
        while i < n
            invariant
                i <= n,
                n == self.rules@.len(),
                rv == rules_view(self.rules@),
                first_target_spec(rv, 0) == first_target_spec(rv, i as int),
            decreases n - i,
        {
            let targets = self.rules[i].targets();
            if targets.len() > 0 {
                let t = targets[0].duplicate();
                proof {
                    assert(rv[i as int] == self.rules@[i as int]@);
                }
                return Ok(t);
            }
            proof {
                assert(rv[i as int] == self.rules@[i as int]@);
            }
            i = i + 1;
        }
        Err(ErrorCode::NoTarget { target: None })
    }

    /// The order in which targets must be processed to build `name`:
    /// prerequisites before their targets, every target at most once, and a
    /// prerequisite that depends on itself — directly or transitively —
    /// reported as a recursive-prerequisite error instead of recursed into.
    ///
    /// A requested target with no rule runs the `.DEFAULT` rule when one
    /// exists, and is otherwise a no-target error.
    pub fn build_order(&self, name: &String) -> (r: Result<Vec<String>, ErrorCode>)
        ensures
            ({
                let rv = rules_view(self.rules@);
                match find_rule_spec(rv, name@, 0) {
                    None => match self.default_rule {
                        Some(_) => r matches Ok(v) && v.deep_view() == seq![name@],
                        None => r matches Err(e) && (e matches ErrorCode::NoTarget {
                            target,
                        } && target matches Some(t) && t@ == name@),
                    },
                    Some(_) => match walk_spec(
                        rv,
                        name@,
                        Seq::empty(),
                        WalkState { done: Seq::empty(), order: Seq::empty() },
                        (self.rules@.len() + 1) as nat,
                    ) {
                        Walk::Finished(st) => r matches Ok(v) && v.deep_view() == st.order,
                        Walk::Cycle(origin) => r matches Err(e) && (
                        e matches ErrorCode::RecursivePrerequisite {
                            origin: o,
                        } && o@ == origin),
                    },
                }
            }),
    {
        let ghost rv = rules_view(self.rules@);
        if find_rule_idx(&self.rules, name).is_none() {
            if self.default_rule.is_some() {
                let mut v: Vec<String> = Vec::new();
                v.push(name.clone());
                proof {
                    assert(v.deep_view() =~= seq![name@]);
                }
                return Ok(v);
            }
            return Err(ErrorCode::NoTarget { target: Some(name.clone()) });
        }
        let mut stack: Vec<String> = Vec::new();
        let mut done: Vec<String> = Vec::new();
        let mut order: Vec<String> = Vec::new();
        let fuel: u128 = self.rules.len() as u128 + 1;
        proof {
            assert(stack.deep_view() =~= Seq::<Seq<char>>::empty());
            assert(done.deep_view() =~= Seq::<Seq<char>>::empty());
            assert(order.deep_view() =~= Seq::<Seq<char>>::empty());
        }
        match walk(&self.rules, name, &mut stack, &mut done, &mut order, fuel) {
            None => Ok(order),
            Some(origin) => Err(ErrorCode::RecursivePrerequisite { origin }),
        }
    }
}

/// The first target of the first rule that has one, from `i` on.
pub open spec fn first_target_spec(rules: Seq<RuleV>, i: int) -> Option<TargetV>
    decreases rules.len() - i
    when 0 <= i <= rules.len()
{
    if i >= rules.len() {
        None
    } else if rules[i].targets.len() > 0 {
        Some(rules[i].targets[0])
    } else {
        first_target_spec(rules, i + 1)
    }
}

fn walk(
    rules: &Vec<Rule>,
    name: &String,
    stack: &mut Vec<String>,
    done: &mut Vec<String>,
    order: &mut Vec<String>,
    fuel: u128,
) -> (r: Option<String>)
    ensures
        ({
            let w = walk_spec(
                rules_view(rules@),
                name@,
                old(stack).deep_view(),
                WalkState { done: old(done).deep_view(), order: old(order).deep_view() },
                fuel as nat,
            );
            match r {
                None => w matches Walk::Finished(st) && final(done).deep_view() == st.done
                    && final(order).deep_view() == st.order && final(stack).deep_view() == old(
                    stack,
                ).deep_view(),
                Some(origin) => w == Walk::Cycle(origin@),
            }
        }),
    decreases fuel,
{
    let ghost rv = rules_view(rules@);
    let ghost st0 = WalkState { done: done.deep_view(), order: order.deep_view() };
    if contains_name(done, name) {
        return None;
    }
    if contains_name(stack, name) {
        return Some(name.clone());
    }
    if fuel == 0 {
        return Some(name.clone());
    }
    let idx_opt = find_rule_idx(rules, name);
    match idx_opt {
        None => {
            return None;
        },
        Some(idx) => {
            let ghost stack0 = stack.deep_view();
            stack.push(name.clone());
            proof {
                assert(stack.deep_view() =~= stack0.push(name@));
            }
            let prereq_refs = rules[idx].prerequisites();
            let mut prereqs: Vec<String> = Vec::new();
            let np = prereq_refs.len();
            let mut i: usize = 0;
            while i < np
                invariant
                    i <= np,
                    np == rv[idx as int].prerequisites.len(),
                    idx < rules@.len(),
                    rv == rules_view(rules@),
                    prereqs@.len() == i,
                    forall|k: int|
                        0 <= k < i ==> prereqs@[k]@ == rv[idx as int].prerequisites[k],
                decreases np - i,
            {
                proof {
                    assert(rv[idx as int] == rules@[idx as int]@);
                }
                prereqs.push(rules[idx].prerequisites()[i].name().clone());
                i = i + 1;
            }
            proof {
                assert(prereqs.deep_view() =~= rv[idx as int].prerequisites);
            }
            let ghost ps = prereqs.deep_view();
            let ghost stack1 = stack.deep_view();
            let ghost inner_fuel: nat = (fuel - 1) as nat;
            let ghost w = walk_spec(rv, name@, old(stack).deep_view(), st0, fuel as nat);
            proof {
                assert(w == (match walk_list_spec(rv, ps, 0, stack1, st0, inner_fuel) {
                    Walk::Finished(st2) => Walk::Finished(
                        WalkState { done: st2.done.push(name@), order: st2.order.push(name@) },
                    ),
                    c => c,
                }));
            }
            let mut j: usize = 0;
            while j < np
                invariant
                    j <= np,
                    np == ps.len(),
                    prereqs.deep_view() == ps,
                    prereqs@.len() == np,
                    rv == rules_view(rules@),
                    stack.deep_view() == stack1,
                    inner_fuel == (fuel - 1) as nat,
                    fuel >= 1,
                    w == walk_spec(
                        rv,
                        name@,
                        old(stack).deep_view(),
                        WalkState { done: old(done).deep_view(), order: old(order).deep_view() },
                        fuel as nat,
                    ),
                    w == (match walk_list_spec(rv, ps, 0, stack1, st0, inner_fuel) {
                        Walk::Finished(st2) => Walk::Finished(
                            WalkState { done: st2.done.push(name@), order: st2.order.push(name@) },
                        ),
                        c => c,
                    }),
                    walk_list_spec(rv, ps, 0, stack1, st0, inner_fuel) == walk_list_spec(
                        rv,
                        ps,
                        j as int,
                        stack1,
                        WalkState { done: done.deep_view(), order: order.deep_view() },
                        inner_fuel,
                    ),
                decreases np - j,
            {
                proof {
                    assert(ps[j as int] == prereqs@[j as int]@);
                }
                let ghost mid_st = WalkState { done: done.deep_view(), order: order.deep_view() };
                let sub = walk(rules, &prereqs[j], stack, done, order, fuel - 1);
                match sub {
                    Some(origin) => {
                        proof {
                            assert(walk_spec(rv, ps[j as int], stack1, mid_st, inner_fuel)
                                == Walk::Cycle(origin@));
                            assert(walk_list_spec(rv, ps, j as int, stack1, mid_st, inner_fuel)
                                == Walk::Cycle(origin@));
                            assert(w == Walk::Cycle(origin@));
                        }
                        return Some(origin);
                    },
                    None => {},
                }
                j = j + 1;
            }
            let ghost cur = WalkState { done: done.deep_view(), order: order.deep_view() };
            proof {
                assert(walk_list_spec(rv, ps, np as int, stack1, cur, inner_fuel)
                    == Walk::Finished(cur));
                assert(w == Walk::Finished(
                    WalkState { done: cur.done.push(name@), order: cur.order.push(name@) },
                ));
            }
            let _popped = stack.pop();
            proof {
                assert(stack.deep_view() =~= stack1.drop_last());
                assert(stack1.drop_last() =~= old(stack).deep_view());
            }
            order.push(name.clone());
            done.push(name.clone());
            proof {
                assert(done.deep_view() =~= cur.done.push(name@));
                assert(order.deep_view() =~= cur.order.push(name@));
            }
            None
        },
    }
}

/// Whether a target must be (re)built: it is phony or special (always
/// stale), its file is absent, or some prerequisite is newer — a missing
/// prerequisite counting as newer.
pub open spec fn stale_spec(
    always_stale: bool,
    target_mtime: Option<u64>,
    prereqs: Seq<Option<u64>>,
) -> bool {
    ||| always_stale
    ||| target_mtime is None
    ||| exists|i: int|
        0 <= i < prereqs.len() && (match #[trigger] prereqs[i] {
            None => true,
            Some(pm) => pm > target_mtime.unwrap(),
        })
}

/// Decides staleness from gathered modification times.
pub fn is_stale(always_stale: bool, target_mtime: Option<u64>, prereq_mtimes: &Vec<Option<u64>>) -> (r:
    bool)
    ensures
        r == stale_spec(always_stale, target_mtime, prereq_mtimes@),
{
    if always_stale {
        return true;
    }
    let tm = match target_mtime {
        None => {
            return true;
        },
        Some(tm) => tm,
    };
    let n = prereq_mtimes.len();
    let mut i: usize = 0;
    while i < n
        invariant
            i <= n,
            n == prereq_mtimes@.len(),
            target_mtime == Some(tm),
            forall|k: int|
                0 <= k < i ==> (match #[trigger] prereq_mtimes@[k] {
                    None => false,
                    Some(pm) => pm <= tm,
                }),
        decreases n - i,
    {
        match prereq_mtimes[i] {
            None => {
                return true;
            },
            Some(pm) => {
                if pm > tm {
                    return true;
                }
            },
        }
        i = i + 1;
    }
    false
}

} // verus!
