//! A rule of the makefile: targets, prerequisites, recipe lines and its
//! per-rule flags — and the planner that decides, for a given global
//! configuration, exactly what running the rule does: which lines are
//! printed, which are executed, what environment the shell gets, how a
//! failure is handled, and what the touch step does.
//!
//! Nothing here spawns a shell or touches a file: the planner returns a
//! [`RunPlan`] of plain values, the program around the library performs it
//! and feeds each command's exit back through [`interpret_exit`].

pub mod config;
pub mod prerequisite;
pub mod recipe;
pub mod target;

use vstd::prelude::*;

use crate::config::Config as GlobalConfig;
use crate::error_code::{message_spec, ErrorCode};
use crate::parser::lex::scan_while;
use crate::parser::preprocessor::{table_insert, MacroTable, Table};
use crate::text::{chars_to_string, str_to_chars, string_push};
use config::Config;
use prerequisite::Prerequisite;
use recipe::{Recipe, RecipeV};
use target::{lib_part, member_part, target_name_spec, Target, TargetV};

verus! {

/// A rule: its targets, prerequisites, recipe lines and per-rule flags.
#[derive(Debug, Clone, PartialEq, Eq)]
pub struct Rule {
    targets: Vec<Target>,
    prerequisites: Vec<Prerequisite>,
    recipes: Vec<Recipe>,
    pub config: Config,
}

/// The mathematical shape of a rule.
pub struct RuleV {
    pub targets: Seq<TargetV>,
    pub prerequisites: Seq<Seq<char>>,
    pub recipes: Seq<RecipeV>,
    pub config: Config,
}

impl View for Rule {
    type V = RuleV;

    closed spec fn view(&self) -> RuleV {
        RuleV {
            targets: Seq::new(self.targets@.len(), |i: int| self.targets@[i]@),
            prerequisites: Seq::new(self.prerequisites@.len(), |i: int| self.prerequisites@[i]@),
            recipes: Seq::new(self.recipes@.len(), |i: int| self.recipes@[i]@),
            config: self.config,
        }
    }
}

impl Rule {
    /// A rule from its parsed pieces: each target name classified, each
    /// recipe line's prefixes parsed.
    pub fn new(
        target_names: Vec<String>,
        prerequisite_names: Vec<String>,
        recipe_lines: Vec<String>,
        config: Config,
    ) -> (r: Rule)
        ensures
            r@.targets.len() == target_names@.len(),
            forall|i: int|
                0 <= i < target_names@.len() ==> r@.targets[i] == target::classify(
                    target_names@[i]@,
                ),
            r@.prerequisites =~= prerequisite_names.deep_view(),
            r@.recipes.len() == recipe_lines@.len(),
            forall|i: int|
                0 <= i < recipe_lines@.len() ==> r@.recipes[i] == recipe::recipe_parse(
                    recipe_lines@[i]@,
                ),
            r@.config == config,
    {
        let ghost tn = target_names.deep_view();
        let mut targets: Vec<Target> = Vec::new();
        let mut i: usize = 0;
        let n_t = target_names.len();
        let mut target_names = target_names;
        // consume from the front by index, cloning each name
        while i < n_t
            invariant
                i <= n_t,
                n_t == target_names@.len(),
                targets@.len() == i,
                forall|k: int|
                    0 <= k < i ==> targets@[k]@ == target::classify(target_names@[k]@),
            decreases n_t - i,
        {
            targets.push(Target::new(target_names[i].clone()));
            i = i + 1;
        }
        let mut prerequisites: Vec<Prerequisite> = Vec::new();
        let mut j: usize = 0;
        let n_p = prerequisite_names.len();
        while j < n_p
            invariant
                j <= n_p,
                n_p == prerequisite_names@.len(),
                prerequisites@.len() == j,
                forall|k: int|
                    0 <= k < j ==> prerequisites@[k]@ == prerequisite_names@[k]@,
            decreases n_p - j,
        {
            prerequisites.push(Prerequisite::new(prerequisite_names[j].clone()));
            j = j + 1;
        }
        let mut recipes: Vec<Recipe> = Vec::new();
        let mut k: usize = 0;
        let n_r = recipe_lines.len();
        while k < n_r
            invariant
                k <= n_r,
                n_r == recipe_lines@.len(),
                recipes@.len() == k,
                forall|m: int| 0 <= m < k ==> recipes@[m]@ == recipe::recipe_parse(recipe_lines@[m]@),
            decreases n_r - k,
        {
            recipes.push(Recipe::new(recipe_lines[k].clone()));
            k = k + 1;
        }
        let r = Rule { targets, prerequisites, recipes, config };
        proof {
            assert(r@.prerequisites =~= prerequisite_names.deep_view());
        }
        r
    }

    /// The targets of the rule.
    pub fn targets(&self) -> (r: &Vec<Target>)
        ensures
            r@.len() == self@.targets.len(),
            forall|i: int| 0 <= i < r@.len() ==> r@[i]@ == self@.targets[i],
    {
        &self.targets
    }

    /// The prerequisites of the rule.
    pub fn prerequisites(&self) -> (r: &Vec<Prerequisite>)
        ensures
            r@.len() == self@.prerequisites.len(),
            forall|i: int| 0 <= i < r@.len() ==> r@[i]@ == self@.prerequisites[i],
    {
        &self.prerequisites
    }

    /// The recipe lines of the rule.
    pub fn recipes(&self) -> (r: &Vec<Recipe>)
        ensures
            r@.len() == self@.recipes.len(),
            forall|i: int| 0 <= i < r@.len() ==> r@[i]@ == self@.recipes[i],
    {
        &self.recipes
    }

    /// The recipe with the target-specific internal macros substituted:
    /// `$@` becomes the target's name up to any `(`, `$%` the member part
    /// inside the parentheses, `$$` a literal `$`; everything else is kept,
    /// the sigils `$? $< $*` stay as they are.
    pub fn substitute_internal_macros(&self, target: &Target, recipe: &Recipe) -> (r: Recipe)
        ensures
            r@.text == internal_subst(
                recipe@.text,
                lib_part(target_name_spec(target@)),
                member_part(target_name_spec(target@)),
            ),
            r@.ignore == recipe@.ignore,
            r@.silent == recipe@.silent,
            r@.force_run == recipe@.force_run,
    {
        let name = target.name();
        let name_chars = str_to_chars(name.as_str());
        let p = scan_not_paren(&name_chars, 0);
        let at_name = chars_to_string(&crate::parser::lex::chars_sub(&name_chars, 0, p));
        let member: String;
        if p >= name_chars.len() {
            member = String::new();
            proof {
                assert(member@ =~= member_part(name@));
            }
        } else {
            let q = scan_not_paren(&name_chars, p + 1);
            let mut piece = crate::parser::lex::chars_sub(&name_chars, p + 1, q);
            let ghost piece0 = piece@;
            let np = piece.len();
            if np > 0 && piece[np - 1] == ')' {
                piece.pop();
                proof {
                    assert(piece@ =~= piece0.drop_last());
                }
            }
            member = chars_to_string(&piece);
        }
        let text = recipe.inner();
        let chars = str_to_chars(text.as_str());
        let ghost s = chars@;
        let ghost a = at_name@;
        let ghost m = member@;
        let n = chars.len();
        let mut out = String::new();
        let mut pos: usize = 0;
        proof {
            assert(out@ + internal_subst_at(s, a, m, 0) =~= internal_subst_at(s, a, m, 0));
        }
        while pos < n
            invariant
                pos <= n,
                n == s.len(),
                chars@ == s,
                at_name@ == a,
                member@ == m,
                internal_subst(s, a, m) == out@ + internal_subst_at(s, a, m, pos as int),
            decreases n - pos,
        {
            let ghost old_out = out@;
            let c = chars[pos];
            if c != '$' {
                string_push(&mut out, c);
                pos = pos + 1;
                proof {
                    assert(out@ + internal_subst_at(s, a, m, pos as int) =~= old_out + (seq![c]
                        + internal_subst_at(s, a, m, pos as int)));
                }
            } else if pos + 1 >= n {
                string_push(&mut out, '$');
                pos = pos + 1;
                proof {
                    assert(internal_subst_at(s, a, m, pos as int - 1) =~= seq!['$']);
                    assert(out@ + internal_subst_at(s, a, m, pos as int) =~= old_out + seq!['$']);
                }
            } else {
                let d = chars[pos + 1];
                if d == '@' {
                    out.append(at_name.as_str());
                } else if d == '%' {
                    out.append(member.as_str());
                } else if d == '$' {
                    string_push(&mut out, '$');
                } else {
                    string_push(&mut out, '$');
                    string_push(&mut out, d);
                }
                pos = pos + 2;
                proof {
                    let rest = internal_subst_at(s, a, m, pos as int);
                    if d == '@' {
                        assert(out@ + rest =~= old_out + (a + rest));
                    } else if d == '%' {
                        assert(out@ + rest =~= old_out + (m + rest));
                    } else if d == '$' {
                        assert(out@ + rest =~= old_out + (seq!['$'] + rest));
                    } else {
                        assert(out@ + rest =~= old_out + (seq!['$', d] + rest));
                    }
                }
            }
        }
        proof {
            assert(internal_subst_at(s, a, m, pos as int) =~= Seq::<char>::empty());
            assert(out@ =~= internal_subst(s, a, m));
        }
        recipe::Recipe::with_config(out, recipe.flags())
    }

    /// The environment handed to recipe shells: the macro bindings, later
    /// definitions of a name replacing earlier ones.
    pub fn init_env(&self, macros: &Vec<(String, String)>) -> (r: MacroTable)
        ensures
            r@ == env_table(macros.deep_view(), Seq::empty(), 0),
    {
        let mut table = MacroTable::new();
        let n = macros.len();
        let mut i: usize = 0;
        while i < n
            invariant
                i <= n,
                n == macros@.len(),
                env_table(macros.deep_view(), Seq::empty(), 0) == env_table(
                    macros.deep_view(),
                    table@,
                    i as int,
                ),
            decreases n - i,
        {
            proof {
                assert(macros.deep_view()[i as int] == (macros@[i as int].0@, macros@[
                    i as int].1@));
            }
            let pair = &macros[i];
            table.insert(pair.0.clone(), pair.1.clone());
            i = i + 1;
        }
        table
    }

    /// The complete plan of running this rule for `target` under
    /// `global_config`: one plan per recipe line, the shell environment, and
    /// the touch step if touch mode is on.
    pub fn run_plan(
        &self,
        global_config: &GlobalConfig,
        macros: &Vec<(String, String)>,
        target: &Target,
        up_to_date: bool,
    ) -> (r: RunPlan)
        ensures
            r.lines@.len() == self@.recipes.len(),
            forall|i: int|
                0 <= i < r.lines@.len() ==> (#[trigger] r.lines@[i])@ == line_plan_spec(
                    *global_config,
                    self@.config,
                    target@,
                    self@.recipes[i],
                    up_to_date,
                ),
            r.env@ == env_table(macros.deep_view(), Seq::empty(), 0),
            r.env_macros == global_config.env_macros,
            touch_plan_view(r.touch) == touch_plan_spec(*global_config, self@.config, target@),
    {
        let mut lines: Vec<LinePlan> = Vec::new();
        let n = self.recipes.len();
        let mut i: usize = 0;
        while i < n
            invariant
                i <= n,
                n == self@.recipes.len(),
                n == self.recipes@.len(),
                lines@.len() == i,
                forall|k: int|
                    0 <= k < i ==> (#[trigger] lines@[k])@ == line_plan_spec(
                        *global_config,
                        self@.config,
                        target@,
                        self@.recipes[k],
                        up_to_date,
                    ),
            decreases n - i,
    {
            let plan = self.plan_line(global_config, target, &self.recipes[i], up_to_date);
            lines.push(plan);
            i = i + 1;
        }
        let env = self.init_env(macros);
        let touch: Option<TouchPlan>;
        if global_config.touch {
            let name = target.name();
            let notice: Option<String>;
            if global_config.silent || self.config.silent {
                notice = None;
            } else {
                let mut msg = String::from_str("touch ");
                msg.append(name.as_str());
                notice = Some(msg);
            }
            touch = Some(TouchPlan { file: name, notice });
        } else {
            touch = None;
        }
        RunPlan { lines, env, env_macros: global_config.env_macros, touch }
    }

    fn plan_line(
        &self,
        g: &GlobalConfig,
        target: &Target,
        recipe: &Recipe,
        up_to_date: bool,
    ) -> (r: LinePlan)
        ensures
            r@ == line_plan_spec(*g, self@.config, target@, recipe@, up_to_date),
    {
        let substituted = self.substitute_internal_macros(target, recipe);
        let command = substituted.inner().clone();
        let rc = self.config;
        let rcfg = recipe.flags();
        let ignore = g.ignore || rc.ignore || rcfg.ignore;
        let silent = g.silent || rc.silent || rcfg.silent;
        let precious = g.precious || rc.precious;
        let policy = if ignore {
            FailurePolicy::Ignore
        } else if g.keep_going && !g.terminate {
            FailurePolicy::LogAndStop
        } else {
            FailurePolicy::Abort
        };
        if !rcfg.force_run && g.dry_run {
            LinePlan {
                echo: Some(command.clone()),
                execute: false,
                command,
                on_failure: policy,
                interrupt: None,
                quit_exit: None,
            }
        } else if !rcfg.force_run && g.touch {
            LinePlan {
                echo: None,
                execute: false,
                command,
                on_failure: policy,
                interrupt: None,
                quit_exit: None,
            }
        } else if !rcfg.force_run && g.quit {
            let code: i32 = if up_to_date {
                0
            } else {
                1
            };
            LinePlan {
                echo: None,
                execute: false,
                command,
                on_failure: policy,
                interrupt: None,
                quit_exit: Some(code),
            }
        } else {
            let echo = if silent {
                None
            } else {
                Some(command.clone())
            };
            LinePlan {
                echo,
                execute: true,
                command,
                on_failure: policy,
                interrupt: Some((target.name(), precious)),
                quit_exit: None,
            }
        }
    }
}

fn scan_not_paren(chars: &Vec<char>, start: usize) -> (j: usize)
    requires
        start <= chars@.len(),
    ensures
        j == scan_while(|x: char| x != '(', chars@, start as int),
        start <= j <= chars@.len(),
{
    let n = chars.len();
    let mut j = start;
    loop
        invariant
            start <= j <= n,
            n == chars@.len(),
            forall|k: int| start <= k < j ==> chars@[k] != '(',
        ensures
            start <= j <= n,
            forall|k: int| start <= k < j ==> chars@[k] != '(',
            j < n ==> chars@[j as int] == '(',
        decreases n - j,
    {
        if j >= n {
            break;
        }
        if chars[j] == '(' {
            break;
        }
        j = j + 1;
    }
    proof {
        crate::parser::lex::lemma_scan_while_determined(
            |x: char| x != '(',
            chars@,
            start as int,
            j as int,
        );
    }
    j
}

/// Substitution of the internal macros into a recipe text from position `i`:
/// `$@` becomes `at_name`, `$%` becomes `member`, `$$` a literal `$`, and
/// every other character or `$`-pair is kept as it stands.
pub open spec fn internal_subst_at(
    s: Seq<char>,
    at_name: Seq<char>,
    member: Seq<char>,
    i: int,
) -> Seq<char>
    decreases s.len() - i
    when 0 <= i <= s.len()
{
    if i >= s.len() {
        Seq::empty()
    } else if s[i] != '$' {
        seq![s[i]] + internal_subst_at(s, at_name, member, i + 1)
    } else if i + 1 >= s.len() {
        seq!['$']
    } else {
        let d = s[i + 1];
        let rest = internal_subst_at(s, at_name, member, i + 2);
        if d == '@' {
            at_name + rest
        } else if d == '%' {
            member + rest
        } else if d == '$' {
            seq!['$'] + rest
        } else {
            seq!['$', d] + rest
        }
    }
}

/// Substitution of the internal macros into the whole recipe text.
pub open spec fn internal_subst(s: Seq<char>, at_name: Seq<char>, member: Seq<char>) -> Seq<char> {
    internal_subst_at(s, at_name, member, 0)
}

/// The environment map after inserting `pairs[i..]`, later bindings of a
/// name replacing earlier ones.
pub open spec fn env_table(pairs: Seq<(Seq<char>, Seq<char>)>, t: Table, i: int) -> Table
    decreases pairs.len() - i
    when 0 <= i <= pairs.len()
{
    if i >= pairs.len() {
        t
    } else {
        env_table(pairs, table_insert(t, pairs[i].0, pairs[i].1), i + 1)
    }
}

/// How a failing recipe line is handled.
#[derive(Debug, Clone, Copy, PartialEq, Eq, Structural)]
pub enum FailurePolicy {
    /// `ignore` is effective at some level: carry on with the next line.
    Ignore,
    /// Keep-going mode: log the failure and stop this rule's lines.
    LogAndStop,
    /// Stop and report the execution error.
    Abort,
}

/// The plan for one recipe line.
#[derive(Debug, Clone, PartialEq, Eq)]
pub struct LinePlan {
    /// Text to print before (or, in dry-run, instead of) executing.
    pub echo: Option<String>,
    /// Whether a shell is spawned for this line.
    pub execute: bool,
    /// The command text, internal macros substituted.
    pub command: String,
    /// What a nonzero or signalled exit does.
    pub on_failure: FailurePolicy,
    /// What to write into the interrupt slot before spawning: the target's
    /// name and whether it is precious. Set exactly when the line executes.
    pub interrupt: Option<(String, bool)>,
    /// Quit mode: exit the process with this code instead of anything else.
    pub quit_exit: Option<i32>,
}

/// The mathematical shape of a line plan.
pub struct LinePlanV {
    pub echo: Option<Seq<char>>,
    pub execute: bool,
    pub command: Seq<char>,
    pub on_failure: FailurePolicy,
    pub interrupt: Option<(Seq<char>, bool)>,
    pub quit_exit: Option<i32>,
}

impl View for LinePlan {
    type V = LinePlanV;

    open spec fn view(&self) -> LinePlanV {
        LinePlanV {
            echo: match &self.echo {
                Some(e) => Some(e@),
                None => None,
            },
            execute: self.execute,
            command: self.command@,
            on_failure: self.on_failure,
            interrupt: match &self.interrupt {
                Some(p) => Some((p.0@, p.1)),
                None => None,
            },
            quit_exit: self.quit_exit,
        }
    }
}

/// The touch step of a rule in touch mode.
#[derive(Debug, Clone, PartialEq, Eq)]
pub struct TouchPlan {
    /// The file whose modification time is set to now.
    pub file: String,
    /// The `touch <target>` notice, unless silent.
    pub notice: Option<String>,
}

/// The plan of one whole rule run.
pub struct RunPlan {
    /// One plan per recipe line, in order.
    pub lines: Vec<LinePlan>,
    /// The shell environment from the macro bindings.
    pub env: MacroTable,
    /// Whether the process environment is merged in as well.
    pub env_macros: bool,
    /// The touch step, when touch mode is on.
    pub touch: Option<TouchPlan>,
}

/// The effective failure policy of a line: `ignore` at any level wins, and
/// keep-going (unless hard-terminate) downgrades an abort to log-and-stop.
pub open spec fn failure_policy_spec(g: GlobalConfig, rc: Config, rec: RecipeV) -> FailurePolicy {
    if g.ignore || rc.ignore || rec.ignore {
        FailurePolicy::Ignore
    } else if g.keep_going && !g.terminate {
        FailurePolicy::LogAndStop
    } else {
        FailurePolicy::Abort
    }
}

/// What running one recipe line does, as a function of the three config
/// levels, the target and the line itself.
pub open spec fn line_plan_spec(
    g: GlobalConfig,
    rc: Config,
    target: TargetV,
    rec: RecipeV,
    up_to_date: bool,
) -> LinePlanV {
    let name = target_name_spec(target);
    let text = internal_subst(rec.text, lib_part(name), member_part(name));
    let silent = g.silent || rc.silent || rec.silent;
    let precious = g.precious || rc.precious;
    let policy = failure_policy_spec(g, rc, rec);
    if !rec.force_run && g.dry_run {
        LinePlanV {
            echo: Some(text),
            execute: false,
            command: text,
            on_failure: policy,
            interrupt: None,
            quit_exit: None,
        }
    } else if !rec.force_run && g.touch {
        LinePlanV {
            echo: None,
            execute: false,
            command: text,
            on_failure: policy,
            interrupt: None,
            quit_exit: None,
        }
    } else if !rec.force_run && g.quit {
        LinePlanV {
            echo: None,
            execute: false,
            command: text,
            on_failure: policy,
            interrupt: None,
            quit_exit: Some(if up_to_date { 0int as i32 } else { 1int as i32 }),
        }
    } else {
        LinePlanV {
            echo: if silent {
                None
            } else {
                Some(text)
            },
            execute: true,
            command: text,
            on_failure: policy,
            interrupt: Some((name, precious)),
            quit_exit: None,
        }
    }
}

/// The view of an optional touch plan.
pub open spec fn touch_plan_view(t: Option<TouchPlan>) -> Option<(Seq<char>, Option<Seq<char>>)> {
    match t {
        Some(tp) => Some(
            (
                tp.file@,
                match tp.notice {
                    Some(s) => Some(s@),
                    None => None,
                },
            ),
        ),
        None => None,
    }
}

/// The touch step: in touch mode the target's file is touched and, unless
/// silent, `touch <target>` is printed; otherwise there is no touch step.
pub open spec fn touch_plan_spec(g: GlobalConfig, rc: Config, target: TargetV) -> Option<
    (Seq<char>, Option<Seq<char>>),
> {
    if g.touch {
        Some(
            (
                target_name_spec(target),
                if g.silent || rc.silent {
                    None
                } else {
                    Some("touch "@ + target_name_spec(target))
                },
            ),
        )
    } else {
        None
    }
}

/// What the driver does after a recipe line's shell exits.
pub enum ExitDecision {
    /// Go on with the next line.
    Proceed,
    /// Log this message and stop this rule's remaining lines, without an
    /// error result.
    StopLogged(String),
    /// Stop with this error.
    StopErr(ErrorCode),
}

/// Interprets a recipe line's exit: success proceeds; a failure proceeds
/// under `Ignore`, is logged and stops the rule under `LogAndStop`, and
/// aborts with an execution error (carrying the child's exit code, or none
/// when signal-killed) under `Abort`.
pub fn interpret_exit(policy: FailurePolicy, success: bool, exit_code: Option<i32>) -> (r:
    ExitDecision)
    ensures
        (r is Proceed <==> (success || policy == FailurePolicy::Ignore)),
        !success && policy == FailurePolicy::LogAndStop ==> (r matches ExitDecision::StopLogged(m)
            && m@ == message_spec(&(ErrorCode::ExecutionError { exit_code }))),
        !success && policy == FailurePolicy::Abort ==> r == ExitDecision::StopErr(
            ErrorCode::ExecutionError { exit_code },
        ),
{
    if success {
        ExitDecision::Proceed
    } else {
        match policy {
            FailurePolicy::Ignore => ExitDecision::Proceed,
            FailurePolicy::LogAndStop => {
                let err = ErrorCode::ExecutionError { exit_code };
                ExitDecision::StopLogged(err.message())
            },
            FailurePolicy::Abort => ExitDecision::StopErr(ErrorCode::ExecutionError { exit_code }),
        }
    }
}

/// Interprets a failure to spawn the shell at all: under `Ignore` the line
/// is skipped, otherwise the run stops with an io error carrying the
/// description.
pub fn interpret_spawn_error(policy: FailurePolicy, description: String) -> (r: ExitDecision)
    ensures
        policy == FailurePolicy::Ignore ==> r is Proceed,
        policy != FailurePolicy::Ignore ==> r == ExitDecision::StopErr(
            ErrorCode::IoError(description),
        ),
{
    if let FailurePolicy::Ignore = policy {
        ExitDecision::Proceed
    } else {
        ExitDecision::StopErr(ErrorCode::IoError(description))
    }
}

/// Config monotonicity: `ignore` set at any one level — global, rule or
/// recipe — makes every failing line of the rule proceed instead of
/// aborting it, and no level can undo that.
pub proof fn lemma_config_monotonic(
    g: GlobalConfig,
    rc: Config,
    target: TargetV,
    rec: RecipeV,
    up_to_date: bool,
)
    requires
        g.ignore || rc.ignore || rec.ignore,
    ensures
        line_plan_spec(g, rc, target, rec, up_to_date).on_failure == FailurePolicy::Ignore,
{
}

/// Touch mode never executes a recipe line that lacks the `+` prefix: its
/// plan spawns nothing and prints nothing; only the touch step remains.
pub proof fn lemma_touch_never_spawns(
    g: GlobalConfig,
    rc: Config,
    target: TargetV,
    rec: RecipeV,
    up_to_date: bool,
)
    requires
        g.touch,
        !rec.force_run,
        !g.dry_run,
    ensures
        !line_plan_spec(g, rc, target, rec, up_to_date).execute,
        line_plan_spec(g, rc, target, rec, up_to_date).echo is None,
        line_plan_spec(g, rc, target, rec, up_to_date).interrupt is None,
{
}

/// Dry-run prints every non-force-run command line (after internal-macro
/// substitution) and executes none of them.
pub proof fn lemma_dry_run_prints(
    g: GlobalConfig,
    rc: Config,
    target: TargetV,
    rec: RecipeV,
    up_to_date: bool,
)
    requires
        g.dry_run,
        !rec.force_run,
    ensures
        !line_plan_spec(g, rc, target, rec, up_to_date).execute,
        line_plan_spec(g, rc, target, rec, up_to_date).echo == Some(
            line_plan_spec(g, rc, target, rec, up_to_date).command,
        ),
        line_plan_spec(g, rc, target, rec, up_to_date).interrupt is None,
{
}

} // verus!
