//! The task-tree executor and the per-endpoint engine: guards run first and
//! may short-circuit, then the main tree; outside work (an outbound call, a
//! delay, a sub-template) is handed back to the caller as a pending action
//! and the walk resumes on its result.

use vstd::prelude::*;
use crate::context::Context;
use crate::json::{JsonSpec, JsonValue};
use crate::parser::Endpoint;
use crate::render::{render_obj, preprocess_obj, spec_renders};
use crate::request::Request;
use crate::tasks::{
    os_view, produce_task, spec_produce_task, spec_task_name, HttpMethod, Mock, Switch,
    SwitchCondition, Task, TaskSpec,
};
use crate::text::env_view;
use crate::yaml::{yaml_pairs_view, YamlSpec, YamlValue};

verus! {

/// Bound on task transitions of one walk; a run past it is treated as a
/// runaway graph and surfaces a fatal status.
pub const WALK_BUDGET: u64 = 100000;

/// An ordered task tree; the first task is the entry point.
pub struct TaskTree {
    pub tasks: Vec<Task>,
}

pub open spec fn tree_view(tasks: Seq<Task>) -> Seq<TaskSpec> {
    Seq::new(tasks.len(), |i: int| tasks[i]@)
}

/// The tasks a preprocessed document declares: one per string key that some
/// factory accepts, in declaration order.
pub open spec fn spec_tree_tasks(y: YamlSpec) -> Seq<TaskSpec> {
    match y {
        YamlSpec::Mapping(pairs) => spec_tree_from(y, pairs, 0),
        _ => Seq::empty(),
    }
}

pub open spec fn spec_tree_from(y: YamlSpec, pairs: Seq<(YamlSpec, YamlSpec)>, i: int) -> Seq<
    TaskSpec,
>
    decreases pairs.len() - i,
{
    if i < 0 || i >= pairs.len() {
        Seq::empty()
    } else {
        let here = match pairs[i].0 {
            YamlSpec::Str(k) => match spec_produce_task(k, y) {
                Some(t) => seq![t],
                None => Seq::empty(),
            },
            _ => Seq::empty(),
        };
        here + spec_tree_from(y, pairs, i + 1)
    }
}

impl TaskTree {
    /// Builds the tree of a YAML document: environment substitution first,
    /// then one factory dispatch per top-level key.
    pub fn from_yml(yml: &YamlValue, env: &Vec<(String, String)>) -> (r: TaskTree)
        ensures
            tree_view(r.tasks@) == spec_tree_tasks(
                crate::render::spec_preprocess(yml@, env_view(env@)),
            ),
    {
        let preprocessed = preprocess_obj(yml, env);
        let ghost py = preprocessed@;
        let mut tasks: Vec<Task> = Vec::new();
        match &preprocessed {
            YamlValue::Mapping(pairs) => {
                let ghost pv = yaml_pairs_view(pairs@);
                proof {
                    assert(tree_view(tasks@) + spec_tree_from(py, pv, 0) =~= spec_tree_tasks(py));
                }
                let n = pairs.len();
                let mut i: usize = 0;
                while i < n
                    invariant
                        n == pairs.len(),
                        pv == yaml_pairs_view(pairs@),
                        py == preprocessed@,
                        preprocessed@ == YamlSpec::Mapping(pv),
                        0 <= i <= n,
                        tree_view(tasks@) + spec_tree_from(py, pv, i as int) == spec_tree_tasks(
                            py,
                        ),
                    decreases n - i,
                {
                    proof {
                        assert(pv[i as int] == (pairs@[i as int].0@, pairs@[i as int].1@));
                    }
                    let ghost before = tree_view(tasks@);
                    match &pairs[i].0 {
                        YamlValue::Str(k) => {
                            match produce_task(k.as_str(), &preprocessed) {
                                Some(t) => {
                                    let ghost prev = tasks@;
                                    tasks.push(t);
                                    proof {
                                        assert(tree_view(tasks@) =~= tree_view(prev).push(
                                            tasks@[prev.len() as int]@,
                                        ));
                                    }
                                },
                                None => {},
                            }
                        },
                        _ => {},
                    }
                    proof {
                        assert(tree_view(tasks@) + spec_tree_from(py, pv, i as int + 1) =~= before
                            + spec_tree_from(py, pv, i as int));
                    }
                    i = i + 1;
                }
                proof {
                    assert(spec_tree_from(py, pv, n as int).len() == 0);
                    assert(tree_view(tasks@) =~= tree_view(tasks@) + spec_tree_from(
                        py,
                        pv,
                        n as int,
                    ));
                }
            },
            _ => {
                proof {
                    assert(tree_view(tasks@) =~= spec_tree_tasks(py));
                }
            },
        }
        TaskTree { tasks }
    }

    /// Index of the task named `name`; on several matches the last one, as a
    /// linear scan that keeps overwriting finds it.
    fn find_task(&self, name: &str) -> (r: Option<usize>)
        ensures
            match r {
                Some(j) => spec_find_last(tree_view(self.tasks@), name@) == Some(j as int) && j
                    < self.tasks@.len(),
                None => spec_find_last(tree_view(self.tasks@), name@) is None,
            },
    {
        let n = self.tasks.len();
        let mut found: Option<usize> = None;
        let mut i: usize = 0;
        while i < n
            invariant
                n == self.tasks@.len(),
                0 <= i <= n,
                match found {
                    Some(j) => j < i && spec_task_name(tree_view(self.tasks@)[j as int]) == name@
                        && forall|k: int|
                        j < k < i ==> spec_task_name(#[trigger] tree_view(self.tasks@)[k]) != name@,
                    None => forall|k: int|
                        0 <= k < i ==> spec_task_name(#[trigger] tree_view(self.tasks@)[k])
                            != name@,
                },
            decreases n - i,
        {
            if crate::text::str_eq(self.tasks[i].get_name(), name) {
                found = Some(i);
            }
            i = i + 1;
        }
        proof {
            lemma_find_last(tree_view(self.tasks@), name@);
        }
        found
    }
}

/// Index of the last task named `name`, or nothing.
pub open spec fn spec_find_last(tasks: Seq<TaskSpec>, name: Seq<char>) -> Option<int>
    decreases tasks.len(),
{
    if tasks.len() == 0 {
        None
    } else if spec_task_name(tasks.last()) == name {
        Some(tasks.len() - 1)
    } else {
        spec_find_last(tasks.drop_last(), name)
    }
}

/// `spec_find_last` is the last index carrying the name, and fails exactly
/// when no index carries it.
pub proof fn lemma_find_last(tasks: Seq<TaskSpec>, name: Seq<char>)
    ensures
        spec_find_last(tasks, name) matches Some(j) ==> 0 <= j < tasks.len() && spec_task_name(
            tasks[j],
        ) == name && forall|k: int|
            j < k < tasks.len() ==> spec_task_name(#[trigger] tasks[k]) != name,
        spec_find_last(tasks, name) is None ==> forall|k: int|
            0 <= k < tasks.len() ==> spec_task_name(#[trigger] tasks[k]) != name,
    decreases tasks.len(),
{
    if tasks.len() == 0 {
    } else if spec_task_name(tasks.last()) == name {
    } else {
        lemma_find_last(tasks.drop_last(), name);
        let d = tasks.drop_last();
        assert(forall|k: int| 0 <= k < d.len() ==> d[k] == tasks[k]);
    }
}

/// Work that only the caller can perform before a walk can go on.
pub enum PendingAction {
    Sleep { millis: u64 },
    HttpCall {
        method: HttpMethod,
        url: String,
        headers: Vec<(String, String)>,
        query: Vec<(String, String)>,
        body: JsonValue,
    },
    TemplateCall { path: String, request: Request },
}

/// How the action's outcome is bound into the interpreter on resumption.
pub enum ResumeBinding {
    NoBinding,
    BindRaw { var: String },
    BindHttp { var: String, url: String },
}

/// A suspended walk: the pending action, what to do with its outcome, the
/// task to continue from, and the remaining transition budget.
pub struct WalkPause {
    pub action: PendingAction,
    pub binding: ResumeBinding,
    pub next: Option<String>,
    pub budget: u64,
}

pub enum WalkStep {
    Done,
    Paused(WalkPause),
}

/// Picks the switch clause to jump to: the first clause whose evaluated
/// condition is boolean true; with none, the task's own default successor.
pub open spec fn spec_pick(
    results: Seq<JsonSpec>,
    clauses: Seq<(Seq<char>, Seq<char>)>,
    default_next: Option<Seq<char>>,
) -> Option<Seq<char>>
    decreases results.len(),
{
    if results.len() == 0 || clauses.len() == 0 {
        default_next
    } else if results[0] == JsonSpec::Bool(true) {
        Some(clauses[0].1)
    } else {
        spec_pick(results.drop_first(), clauses.drop_first(), default_next)
    }
}

/// A switch whose conditions all evaluated to something other than boolean
/// true falls through to the task's default successor.
pub proof fn lemma_switch_falls_through(
    results: Seq<JsonSpec>,
    clauses: Seq<(Seq<char>, Seq<char>)>,
    default_next: Option<Seq<char>>,
)
    requires
        forall|i: int| 0 <= i < results.len() ==> results[i] != JsonSpec::Bool(true),
    ensures
        spec_pick(results, clauses, default_next) == default_next,
    decreases results.len(),
{
    if results.len() != 0 && clauses.len() != 0 {
        let rt = results.drop_first();
        assert(forall|i: int| 0 <= i < rt.len() ==> rt[i] == results[i + 1]);
        lemma_switch_falls_through(rt, clauses.drop_first(), default_next);
    }
}

impl Switch {
    /// Evaluates the clauses in order; the first boolean-true condition
    /// names the jump target and later clauses are not evaluated.
    pub fn execute(&self, context: &Context) -> (r: Option<String>)
        ensures
            exists|rs: Seq<JsonSpec>|
                rs.len() == self.conditions@.len() && os_view(r) == spec_pick(
                    rs,
                    crate::tasks::spec_conditions_view(self.conditions@),
                    os_view(self.next_task),
                ),
    {
        let ghost cv = crate::tasks::spec_conditions_view(self.conditions@);
        let ghost dv = os_view(self.next_task);
        let n = self.conditions.len();
        let mut i: usize = 0;
        let ghost mut seen: Seq<JsonSpec> = Seq::empty();
        while i < n
            invariant
                n == self.conditions@.len(),
                cv == crate::tasks::spec_conditions_view(self.conditions@),
                dv == os_view(self.next_task),
                0 <= i <= n,
                seen.len() == i,
                forall|k: int| 0 <= k < i ==> seen[k] != JsonSpec::Bool(true),
            decreases n - i,
        {
            let v = context.evaluate_expr(self.conditions[i].condition.as_str());
            let truthy = match v.as_bool() {
                Some(b) => b,
                None => false,
            };
            if truthy {
                let r = Some(crate::yaml::clone_string(&self.conditions[i].next_task));
                proof {
                    let rs = seen.push(JsonSpec::Bool(true)) + Seq::new(
                        (n - i - 1) as nat,
                        |k: int| JsonSpec::Bool(false),
                    );
                    assert(rs[i as int] == JsonSpec::Bool(true));
                    assert(forall|k: int| 0 <= k < i ==> rs[k] == seen[k]);
                    lemma_switch_picks_first(rs, cv, dv, i as int);
                    assert(rs.len() == self.conditions@.len() && os_view(r) == spec_pick(
                        rs,
                        cv,
                        dv,
                    ));
                }
                return r;
            }
            proof {
                seen = seen.push(v@);
            }
            i = i + 1;
        }
        let r = match &self.next_task {
            Some(s) => Some(crate::yaml::clone_string(s)),
            None => None,
        };
        proof {
            lemma_switch_falls_through(seen, cv, dv);
            assert(seen.len() == self.conditions@.len() && os_view(r) == spec_pick(seen, cv, dv));
        }
        r
    }
}

/// The first boolean-true result selects its clause's target.
pub proof fn lemma_switch_picks_first(
    results: Seq<JsonSpec>,
    clauses: Seq<(Seq<char>, Seq<char>)>,
    default_next: Option<Seq<char>>,
    i: int,
)
    requires
        results.len() == clauses.len(),
        0 <= i < results.len(),
        forall|k: int| 0 <= k < i ==> results[k] != JsonSpec::Bool(true),
        results[i] == JsonSpec::Bool(true),
    ensures
        spec_pick(results, clauses, default_next) == Some(clauses[i].1),
    decreases i,
{
    if i > 0 {
        let rt = results.drop_first();
        let ct = clauses.drop_first();
        assert(forall|k: int| 0 <= k < rt.len() ==> rt[k] == results[k + 1]);
        assert(forall|k: int| 0 <= k < ct.len() ==> ct[k] == clauses[k + 1]);
        lemma_switch_picks_first(rt, ct, default_next, i - 1);
    }
}

impl crate::tasks::Declaration {
    /// A declaration is a runtime no-op; it only advances.
    pub fn execute(&self) -> (next: Option<String>)
        ensures
            os_view(next) == os_view(self.next_task),
    {
        match &self.next_task {
            Some(s) => Some(crate::yaml::clone_string(s)),
            None => None,
        }
    }
}

impl crate::tasks::Ret {
    /// Renders the return expression and stores it with the task's status;
    /// the interpreter handle is preserved.
    pub fn execute(&self, context: &mut Context) -> (next: Option<String>)
        ensures
            final (context).status_code == self.status_code,
            spec_renders(self.return_expr@, final (context).return_json@),
            final (context).js == old(context).js,
            os_view(next) == os_view(self.next_task),
    {
        let rendered = render_obj(&self.return_expr, context);
        context.set_return_value(self.status_code, rendered);
        match &self.next_task {
            Some(s) => Some(crate::yaml::clone_string(s)),
            None => None,
        }
    }
}

impl crate::tasks::Assign {
    /// Renders the assignment mapping and binds each rendered entry to a
    /// variable of its name, in order.
    pub fn execute(&self, context: &Context) -> (next: Option<String>)
        ensures
            os_view(next) == os_view(self.next_task),
    {
        let rendered = render_obj(&self.assign_expr, context);
        match &rendered {
            JsonValue::Obj(pairs) => {
                let n = pairs.len();
                let mut i: usize = 0;
                while i < n
                    invariant
                        n == pairs@.len(),
                        0 <= i <= n,
                    decreases n - i,
                {
                    bind_var(context, pairs[i].0.as_str(), &pairs[i].1);
                    i = i + 1;
                }
            },
            _ => {},
        }
        match &self.next_task {
            Some(s) => Some(crate::yaml::clone_string(s)),
            None => None,
        }
    }
}

impl Mock {
    /// Renders the mock arguments and binds them to the result variable;
    /// the sleep, if any, is left to the caller.
    pub fn execute(&self, context: &Context) -> (sleep: u64)
        ensures
            sleep == self.sleep_mcs,
    {
        let rendered = render_obj(&self.args, context);
        match &self.result {
            Some(res) => {
                bind_var(context, res.as_str(), &rendered);
            },
            None => {},
        }
        self.sleep_mcs
    }
}

/// The value bound after an outbound call: the task's configured URL, as
/// written in its `args` (not the evaluated form), under `request`, and the
/// response body under `response`.
pub fn http_result_value(url: &str, body: JsonValue) -> (r: JsonValue)
    ensures
        r@ == JsonSpec::Obj(
            seq![
                ("request"@, JsonSpec::Obj(seq![("url"@, JsonSpec::Str(url@))])),
                ("response"@, JsonSpec::Obj(seq![("body"@, body@)])),
            ],
        ),
{
    let mut request_pairs: Vec<(String, JsonValue)> = Vec::new();
    request_pairs.push(("url".to_owned(), JsonValue::Str(url.to_owned())));
    proof {
        assert(crate::json::json_pairs_view(request_pairs@) =~= seq![
            ("url"@, JsonSpec::Str(url@)),
        ]);
    }
    let mut body_pairs: Vec<(String, JsonValue)> = Vec::new();
    body_pairs.push(("body".to_owned(), body));
    proof {
        assert(crate::json::json_pairs_view(body_pairs@) =~= seq![("body"@, body@)]);
    }
    let ghost bv = crate::json::json_pairs_view(body_pairs@);
    let mut response_pairs: Vec<(String, JsonValue)> = Vec::new();
    response_pairs.push(("request".to_owned(), JsonValue::Obj(request_pairs)));
    response_pairs.push(("response".to_owned(), JsonValue::Obj(body_pairs)));
    proof {
        assert(crate::json::json_pairs_view(response_pairs@) =~= seq![
            ("request"@, JsonSpec::Obj(seq![("url"@, JsonSpec::Str(url@))])),
            ("response"@, JsonSpec::Obj(bv)),
        ]);
    }
    JsonValue::Obj(response_pairs)
}

/// Binds a JSON value to a fresh `let` variable, as a sub-template result
/// is bound.
fn bind_let(context: &Context, var: &str, value: &JsonValue) {
    let mut code = String::new();
    code.append("let ");
    code.append(var);
    code.append(" = ");
    let text = crate::json::json_to_string(value);
    code.append(text.as_str());
    code.append(";");
    context.evaluate_expr(Context::wrap_js_code(code.as_str()).as_str());
}

/// Binds a JSON value to a JavaScript variable through the interpreter.
fn bind_var(context: &Context, var: &str, value: &JsonValue) {
    let mut code = String::new();
    code.append("var ");
    code.append(var);
    code.append(" = ");
    let text = crate::json::json_to_string(value);
    code.append(text.as_str());
    code.append(";");
    context.evaluate_expr(Context::wrap_js_code(code.as_str()).as_str());
}

impl TaskTree {
    /// Walks the tree from its entry task: an empty tree finishes at once
    /// with the context untouched; otherwise the first task starts the walk.
    pub fn walk_through(&self, context: &mut Context) -> (r: WalkStep)
        ensures
            self.tasks@.len() == 0 ==> r is Done && *final (context) == *old(context),
            self.tasks@.len() > 0 ==> spec_walk_outcome(
                tree_view(self.tasks@),
                0,
                ctx_model(*old(context)),
                WALK_BUDGET as nat,
                r,
                ctx_model(*final (context)),
            ),
    {
        if self.tasks.len() == 0 {
            return WalkStep::Done;
        }
        self.run_from(context, 0, WALK_BUDGET)
    }

    /// Continues a paused walk with the action's outcome — `None` when the
    /// outside work failed entirely. The outcome is bound as the pause asks
    /// (through the evaluator, which leaves status and return slot alone):
    /// a raw binding takes the outcome or null, an outbound-call binding
    /// wraps the response body, or binds bare null on a failed exchange.
    /// Then the walk goes on from the pause's successor; without one, or
    /// with one naming no task, it is done.
    pub fn resume(&self, context: &mut Context, pause: WalkPause, event: Option<JsonValue>) -> (r:
        WalkStep)
        ensures
            pause.next is None ==> r is Done && ctx_model(*final (context)) == ctx_model(
                *old(context),
            ),
            pause.next matches Some(nm) ==> (spec_find_last(tree_view(self.tasks@), nm@) is None
                ==> r is Done && ctx_model(*final (context)) == ctx_model(*old(context))),
            pause.next matches Some(nm) ==> (spec_find_last(
                tree_view(self.tasks@),
                nm@,
            ) matches Some(j) ==> spec_walk_outcome(
                tree_view(self.tasks@),
                j,
                ctx_model(*old(context)),
                pause.budget as nat,
                r,
                ctx_model(*final (context)),
            )),
    {
        match &pause.binding {
            ResumeBinding::NoBinding => {},
            ResumeBinding::BindRaw { var } => {
                let value = match event {
                    Some(v) => v,
                    None => JsonValue::Null,
                };
                bind_let(context, var.as_str(), &value);
            },
            ResumeBinding::BindHttp { var, url } => match event {
                Some(body) => {
                    let bound = http_result_value(url.as_str(), body);
                    bind_var(context, var.as_str(), &bound);
                },
                None => {
                    bind_var(context, var.as_str(), &JsonValue::Null);
                },
            },
        }
        match pause.next {
            Some(name) => match self.find_task(name.as_str()) {
                Some(j) => self.run_from(context, j, pause.budget),
                None => WalkStep::Done,
            },
            None => WalkStep::Done,
        }
    }

    /// Runs tasks from index `start` until the tree ends, a named successor
    /// is missing, outside work is needed, or the budget runs out.
    fn run_from(&self, context: &mut Context, start: usize, budget: u64) -> (r: WalkStep)
        requires
            start < self.tasks@.len(),
        ensures
            spec_walk_outcome(
                tree_view(self.tasks@),
                start as int,
                ctx_model(*old(context)),
                budget as nat,
                r,
                ctx_model(*final (context)),
            ),
    {
        let ghost tv = tree_view(self.tasks@);
        let ghost m0 = ctx_model(*context);
        let ghost b0 = budget as nat;
        let ghost mut steps: nat = 0;
        let mut cur: usize = start;
        let mut fuel = budget;
        loop
            invariant
                tv == tree_view(self.tasks@),
                m0 == ctx_model(*old(context)),
                cur < self.tasks@.len(),
                b0 == budget as nat,
                steps + fuel as nat == b0,
                spec_reaches_n(tv, start as int, m0, cur as int, ctx_model(*context), steps),
            decreases fuel,
        {
            if fuel == 0 {
                // runaway task graph: surface a fatal status
                proof {
                    assert(spec_reaches_n(
                        tv,
                        start as int,
                        m0,
                        cur as int,
                        ctx_model(*context),
                        b0,
                    ));
                }
                context.set_return_value(500, JsonValue::Null);
                proof {
                    assert(ctx_model(*context) =~= spec_fatal_model());
                    assert(spec_walk_done_from(tv, start as int, m0, b0, ctx_model(*context)));
                }
                return WalkStep::Done;
            }
            fuel = fuel - 1;
            let ghost s_before = ctx_model(*context);
            let next: Option<String> = match &self.tasks[cur] {
                Task::Declaration(t) => {
                    let next = t.execute();
                    proof {
                        assert(tv[cur as int] == self.tasks@[cur as int]@);
                        assert(spec_step(
                            tv[cur as int],
                            s_before,
                            ctx_model(*context),
                            os_view(next),
                        ));
                    }
                    next
                },
                Task::Ret(t) => {
                    let next = t.execute(context);
                    proof {
                        assert(tv[cur as int] == self.tasks@[cur as int]@);
                        assert(spec_step(
                            tv[cur as int],
                            s_before,
                            ctx_model(*context),
                            os_view(next),
                        ));
                    }
                    next
                },
                Task::Assign(t) => {
                    let next = t.execute(context);
                    proof {
                        assert(tv[cur as int] == self.tasks@[cur as int]@);
                        assert(spec_step(
                            tv[cur as int],
                            s_before,
                            ctx_model(*context),
                            os_view(next),
                        ));
                    }
                    next
                },
                Task::Switch(t) => {
                    let next = t.execute(context);
                    proof {
                        assert(tv[cur as int] == self.tasks@[cur as int]@);
                        assert(spec_step(
                            tv[cur as int],
                            s_before,
                            ctx_model(*context),
                            os_view(next),
                        ));
                    }
                    next
                },
                Task::Http(t) => {
                    let url_value = context.evaluate_expr(t.args.url.as_str());
                    let url = match url_value.as_str() {
                        Some(u) => u.to_owned(),
                        None => crate::yaml::clone_string(&t.args.url),
                    };
                    let headers = render_string_map(&t.args.headers, context);
                    let query = render_string_map(&t.args.query, context);
                    let body = render_obj(&t.args.body, context);
                    let binding = match &t.result {
                        Some(v) => ResumeBinding::BindHttp {
                            var: crate::yaml::clone_string(v),
                            url: crate::yaml::clone_string(&t.args.url),
                        },
                        None => ResumeBinding::NoBinding,
                    };
                    let p = WalkPause {
                        action: PendingAction::HttpCall {
                            method: t.args.method,
                            url: url,
                            headers: headers,
                            query: query,
                            body: body,
                        },
                        binding: binding,
                        next: match &t.next_task {
                            Some(s) => Some(crate::yaml::clone_string(s)),
                            None => None,
                        },
                        budget: fuel,
                    };
                    proof {
                        assert(tv[cur as int] == self.tasks@[cur as int]@);
                        assert(spec_pause_mirrors(tv[cur as int], p));
                        assert(spec_reaches(
                            tv,
                            start as int,
                            m0,
                            cur as int,
                            ctx_model(*context),
                        ));
                    }
                    return WalkStep::Paused(p);
                },
                Task::Mock(t) => {
                    let sleep = t.execute(context);
                    let next = match &t.next_task {
                        Some(s) => Some(crate::yaml::clone_string(s)),
                        None => None,
                    };
                    if sleep > 0 {
                        let p = WalkPause {
                            action: PendingAction::Sleep { millis: sleep },
                            binding: ResumeBinding::NoBinding,
                            next: next,
                            budget: fuel,
                        };
                        proof {
                            assert(tv[cur as int] == self.tasks@[cur as int]@);
                            assert(spec_pause_mirrors(tv[cur as int], p));
                            assert(spec_reaches(
                                tv,
                                start as int,
                                m0,
                                cur as int,
                                ctx_model(*context),
                            ));
                        }
                        return WalkStep::Paused(p);
                    }
                    proof {
                        assert(tv[cur as int] == self.tasks@[cur as int]@);
                        assert(spec_step(
                            tv[cur as int],
                            s_before,
                            ctx_model(*context),
                            os_view(next),
                        ));
                    }
                    next
                },
                Task::Template(t) => {
                    let mut path_expr = String::new();
                    path_expr.append("${dsl}/");
                    path_expr.append(t.template_path.as_str());
                    let path_value = context.evaluate_expr(path_expr.as_str());
                    let path = match path_value.as_str() {
                        Some(p) => p.to_owned(),
                        None => crate::yaml::clone_string(&t.template_path),
                    };
                    let body = render_obj(&t.body, context);
                    let headers = render_string_map(&t.headers, context);
                    let query = render_string_map(&t.query, context);
                    let request = Request::new(headers, body, query);
                    let binding = match &t.result {
                        Some(v) => ResumeBinding::BindRaw { var: crate::yaml::clone_string(v) },
                        None => ResumeBinding::NoBinding,
                    };
                    let p = WalkPause {
                        action: PendingAction::TemplateCall { path: path, request: request },
                        binding: binding,
                        next: match &t.next_task {
                            Some(s) => Some(crate::yaml::clone_string(s)),
                            None => None,
                        },
                        budget: fuel,
                    };
                    proof {
                        assert(tv[cur as int] == self.tasks@[cur as int]@);
                        assert(spec_pause_mirrors(tv[cur as int], p));
                        assert(spec_reaches(
                            tv,
                            start as int,
                            m0,
                            cur as int,
                            ctx_model(*context),
                        ));
                    }
                    return WalkStep::Paused(p);
                },
            };
            match next {
                Some(name) => {
                    let found = self.find_task(name.as_str());
                    match found {
                        Some(j) => {
                            proof {
                                assert(spec_step(
                                    tv[cur as int],
                                    s_before,
                                    ctx_model(*context),
                                    Some(name@),
                                ));
                                steps = steps + 1;
                                assert(spec_reaches_n(
                                    tv,
                                    start as int,
                                    m0,
                                    j as int,
                                    ctx_model(*context),
                                    steps,
                                ));
                            }
                            cur = j;
                        },
                        None => {
                            proof {
                                assert(spec_reaches(
                                    tv,
                                    start as int,
                                    m0,
                                    cur as int,
                                    s_before,
                                ));
                                assert(spec_walk_done_from(
                                    tv,
                                    start as int,
                                    m0,
                                    b0,
                                    ctx_model(*context),
                                ));
                            }
                            return WalkStep::Done;
                        },
                    }
                },
                None => {
                    proof {
                        assert(spec_reaches(tv, start as int, m0, cur as int, s_before));
                        assert(spec_walk_done_from(
                            tv,
                            start as int,
                            m0,
                            b0,
                            ctx_model(*context),
                        ));
                    }
                    return WalkStep::Done;
                },
            }
        }
    }
}

/// A plain (non-expression) string evaluates to itself.
pub open spec fn spec_plain(s: Seq<char>) -> bool {
    !crate::context::spec_is_obj(s) && !crate::context::spec_is_template(s)
}

/// How a string map renders through the evaluator: entries are kept in
/// order; a plain value is kept verbatim, an expression value is kept with
/// whatever string the evaluator returned, or dropped when the evaluation
/// was no string.
pub open spec fn spec_renders_smap(
    ins: Seq<(Seq<char>, Seq<char>)>,
    outs: Seq<(Seq<char>, Seq<char>)>,
    i: int,
) -> bool
    decreases ins.len() - i,
{
    if i < 0 || i >= ins.len() {
        outs.len() == 0
    } else if spec_plain(ins[i].1) {
        outs.len() > 0 && outs[0] == ins[i] && spec_renders_smap(ins, outs.drop_first(), i + 1)
    } else {
        ||| (outs.len() > 0 && outs[0].0 == ins[i].0 && spec_renders_smap(
            ins,
            outs.drop_first(),
            i + 1,
        ))
        ||| spec_renders_smap(ins, outs, i + 1)
    }
}

/// Rendering checked over the first `i` input entries, last entry first.
pub open spec fn spec_smap_upto(
    ins: Seq<(Seq<char>, Seq<char>)>,
    outs: Seq<(Seq<char>, Seq<char>)>,
    i: int,
) -> bool
    decreases i,
{
    if i <= 0 || i > ins.len() {
        outs.len() == 0
    } else if spec_plain(ins[i - 1].1) {
        outs.len() > 0 && outs.last() == ins[i - 1] && spec_smap_upto(ins, outs.drop_last(), i - 1)
    } else {
        ||| (outs.len() > 0 && outs.last().0 == ins[i - 1].0 && spec_smap_upto(
            ins,
            outs.drop_last(),
            i - 1,
        ))
        ||| spec_smap_upto(ins, outs, i - 1)
    }
}

/// A fully checked prefix joined to a checked remainder checks whole.
proof fn lemma_smap_upto_join(
    ins: Seq<(Seq<char>, Seq<char>)>,
    o1: Seq<(Seq<char>, Seq<char>)>,
    o2: Seq<(Seq<char>, Seq<char>)>,
    i: int,
)
    requires
        0 <= i <= ins.len(),
        spec_smap_upto(ins, o1, i),
        spec_renders_smap(ins, o2, i),
    ensures
        spec_renders_smap(ins, o1 + o2, 0),
    decreases i,
{
    if i == 0 {
        assert(o1 + o2 =~= o2);
    } else if spec_plain(ins[i - 1].1) {
        let last = o1.last();
        let front = o1.drop_last();
        assert(spec_renders_smap(ins, seq![last] + o2, i - 1)) by {
            assert((seq![last] + o2).drop_first() =~= o2);
        }
        lemma_smap_upto_join(ins, front, seq![last] + o2, i - 1);
        assert(front + (seq![last] + o2) =~= o1 + o2);
    } else {
        if o1.len() > 0 && o1.last().0 == ins[i - 1].0 && spec_smap_upto(
            ins,
            o1.drop_last(),
            i - 1,
        ) {
            let last = o1.last();
            let front = o1.drop_last();
            assert(spec_renders_smap(ins, seq![last] + o2, i - 1)) by {
                assert((seq![last] + o2).drop_first() =~= o2);
            }
            lemma_smap_upto_join(ins, front, seq![last] + o2, i - 1);
            assert(front + (seq![last] + o2) =~= o1 + o2);
        } else {
            lemma_smap_upto_join(ins, o1, o2, i - 1);
        }
    }
}

/// Evaluates every value of a string map; entries whose evaluation is not a
/// string are dropped.
fn render_string_map(pairs: &Vec<(String, String)>, context: &Context) -> (r: Vec<(String, String)>)
    ensures
        spec_renders_smap(
            crate::tasks::spec_string_pairs_view(pairs@),
            crate::tasks::spec_string_pairs_view(r@),
            0,
        ),
{
    let ghost iv = crate::tasks::spec_string_pairs_view(pairs@);
    let n = pairs.len();
    let mut out: Vec<(String, String)> = Vec::new();
    let mut i: usize = 0;
    while i < n
        invariant
            n == pairs@.len(),
            iv == crate::tasks::spec_string_pairs_view(pairs@),
            0 <= i <= n,
            spec_smap_upto(iv, crate::tasks::spec_string_pairs_view(out@), i as int),
        decreases n - i,
    {
        proof {
            assert(iv[i as int] == (pairs@[i as int].0@, pairs@[i as int].1@));
        }
        let v = context.evaluate_expr(pairs[i].1.as_str());
        match v.as_str() {
            Some(s) => {
                let ghost prev = out@;
                out.push((crate::yaml::clone_string(&pairs[i].0), s.to_owned()));
                proof {
                    let ov = crate::tasks::spec_string_pairs_view(out@);
                    assert(ov.drop_last() =~= crate::tasks::spec_string_pairs_view(prev));
                    assert(ov.last() == (pairs@[i as int].0@, s@));
                }
            },
            None => {
                proof {
                    assert(!spec_plain(iv[i as int].1));
                }
            },
        }
        i = i + 1;
    }
    proof {
        lemma_smap_upto_join(
            iv,
            crate::tasks::spec_string_pairs_view(out@),
            Seq::empty(),
            n as int,
        );
        assert(crate::tasks::spec_string_pairs_view(out@) + Seq::<(Seq<char>, Seq<char>)>::empty()
            =~= crate::tasks::spec_string_pairs_view(out@));
    }
    out
}

} // verus!

verus! {

/// The engine's response: a JSON body and an HTTP status.
pub struct EngineResponse(pub JsonValue, pub u16);

/// A run suspended on outside work: the context, the phase (guard index, or
/// one past the guards for the main tree) and the paused walk.
pub struct EngineProgress {
    pub ctx: Context,
    pub phase: usize,
    pub pause: WalkPause,
}

pub enum EngineStep {
    Finished(EngineResponse),
    Paused(EngineProgress),
}

/// One engine per endpoint: its guard trees, outermost first, and the main
/// tree.
pub struct Engine {
    pub guards: Vec<TaskTree>,
    pub tree: TaskTree,
    pub dsl_path: String,
}

/// The engine response body: the return value wrapped under `response`.
pub fn build_response(json: JsonValue, status: u16) -> (r: EngineResponse)
    ensures
        r.0@ == JsonSpec::Obj(seq![("response"@, json@)]),
        r.1 == status,
{
    let mut pairs: Vec<(String, JsonValue)> = Vec::new();
    pairs.push(("response".to_owned(), json));
    proof {
        assert(crate::json::json_pairs_view(pairs@) =~= seq![("response"@, json@)]);
    }
    let body = JsonValue::Obj(pairs);
    EngineResponse(body, status)
}

/// A status outside the HTTP-representable range is replaced with 500.
pub fn sanitize_status(status: u16) -> (r: u16)
    ensures
        100 <= status <= 999 ==> r == status,
        !(100 <= status <= 999) ==> r == 500,
{
    if 100 <= status && status <= 999 {
        status
    } else {
        500
    }
}

impl Engine {
    /// One tree per guard, outermost first, then the endpoint's own tree.
    pub fn from_endpoint(endpoint: &Endpoint, dsl_path: &str, env: &Vec<(String, String)>) -> (r:
        Engine)
        ensures
            r.guards@.len() == endpoint.guards@.len(),
            forall|i: int|
                0 <= i < r.guards@.len() ==> tree_view(#[trigger] r.guards@[i].tasks@)
                    == spec_tree_tasks(
                    crate::render::spec_preprocess(
                        crate::parser::guards_view(endpoint.guards@)[i],
                        env_view(env@),
                    ),
                ),
            tree_view(r.tree.tasks@) == spec_tree_tasks(
                crate::render::spec_preprocess(endpoint.yml_content@, env_view(env@)),
            ),
            r.dsl_path@ == dsl_path@,
    {
        let mut guards: Vec<TaskTree> = Vec::new();
        let n = endpoint.guards.len();
        let mut i: usize = 0;
        while i < n
            invariant
                n == endpoint.guards@.len(),
                0 <= i <= n,
                guards@.len() == i,
                forall|k: int|
                    0 <= k < i ==> tree_view(#[trigger] guards@[k].tasks@) == spec_tree_tasks(
                        crate::render::spec_preprocess(
                            crate::parser::guards_view(endpoint.guards@)[k],
                            env_view(env@),
                        ),
                    ),
            decreases n - i,
        {
            let tree = TaskTree::from_yml(&endpoint.guards[i].yml_content, env);
            guards.push(tree);
            i = i + 1;
        }
        let tree = TaskTree::from_yml(&endpoint.yml_content, env);
        Engine { guards: guards, tree: tree, dsl_path: dsl_path.to_owned() }
    }

    /// An engine over a bare template document: no guards.
    pub fn from_template(template: &YamlValue, dsl_path: &str, env: &Vec<(String, String)>) -> (r:
        Engine)
        ensures
            r.guards@.len() == 0,
            tree_view(r.tree.tasks@) == spec_tree_tasks(
                crate::render::spec_preprocess(template@, env_view(env@)),
            ),
            r.dsl_path@ == dsl_path@,
    {
        Engine { guards: Vec::new(), tree: TaskTree::from_yml(template, env), dsl_path: dsl_path.to_owned() }
    }

    /// Starts a run on a fresh context (status 200, null return value):
    /// guards walk in order, the first to finish on a status outside the
    /// 200 range short-circuits with its own return value, and otherwise
    /// the main tree's final model becomes the response, wrapped under
    /// `response`. Outside work suspends the run at its phase.
    pub fn execute(&self, request: Request) -> (r: EngineStep)
        ensures
            r matches EngineStep::Finished(resp) ==> spec_phases_finish(
                guards_trees_view(self.guards@),
                tree_view(self.tree.tasks@),
                0,
                CtxModel { status: 200, ret: JsonSpec::Null },
                resp,
            ),
            r matches EngineStep::Paused(p) ==> spec_paused_wf(
                guards_trees_view(self.guards@),
                tree_view(self.tree.tasks@),
                p,
            ),
    {
        let ctx = Context::from_request(request, self.dsl_path.as_str());
        proof {
            assert(ctx_model(ctx) =~= CtxModel { status: 200, ret: JsonSpec::Null });
        }
        self.advance(ctx, 0)
    }

    /// Continues a suspended run with the outcome of its pending action,
    /// `None` when the outside work failed entirely: the outcome is bound
    /// as the pause asks, the suspended tree walks to its end, and the
    /// remaining phases follow as in a fresh run.
    pub fn resume(&self, progress: EngineProgress, event: Option<JsonValue>) -> (r: EngineStep)
        ensures
            r matches EngineStep::Finished(resp) ==> exists|m1: CtxModel|
                #[trigger] spec_tree_resume_done(
                    spec_phase_tree(
                        guards_trees_view(self.guards@),
                        tree_view(self.tree.tasks@),
                        progress.phase as int,
                    ),
                    progress.pause,
                    ctx_model(progress.ctx),
                    m1,
                ) && spec_phases_finish_after(
                    guards_trees_view(self.guards@),
                    tree_view(self.tree.tasks@),
                    progress.phase as int,
                    m1,
                    resp,
                ),
            r matches EngineStep::Paused(p2) ==> spec_paused_wf(
                guards_trees_view(self.guards@),
                tree_view(self.tree.tasks@),
                p2,
            ),
    {
        let ghost pr = progress;
        let ghost gsv = guards_trees_view(self.guards@);
        let ghost mv = tree_view(self.tree.tasks@);
        let ghost m0 = ctx_model(progress.ctx);
        let EngineProgress { mut ctx, phase, pause } = progress;
        if phase < self.guards.len() {
            let ghost gt = gsv[phase as int];
            proof {
                assert(gt == tree_view(self.guards@[phase as int].tasks@));
                assert(spec_phase_tree(gsv, mv, phase as int) == gt);
            }
            let step = self.guards[phase].resume(&mut ctx, pause, event);
            match step {
                WalkStep::Done => {
                    let ghost m1 = ctx_model(ctx);
                    proof {
                        if pr.pause.next is Some {
                            let nm = pr.pause.next->0;
                            if spec_find_last(gt, nm@) is Some {
                            }
                        }
                        assert(spec_tree_resume_done(gt, pr.pause, m0, m1));
                    }
                    let r = self.after_guard(ctx, phase);
                    proof {
                        match &r {
                            EngineStep::Finished(resp) => {
                                assert(spec_tree_resume_done(gt, pr.pause, m0, m1)
                                    && spec_phases_finish_after(
                                    gsv,
                                    mv,
                                    phase as int,
                                    m1,
                                    *resp,
                                ));
                            },
                            EngineStep::Paused(p) => {},
                        }
                    }
                    r
                },
                WalkStep::Paused(p) => {
                    let ghost mfin = ctx_model(ctx);
                    let ep = EngineProgress { ctx: ctx, phase: phase, pause: p };
                    proof {
                        assert(pr.pause.next is Some);
                        let nm = pr.pause.next->0;
                        assert(spec_find_last(gt, nm@) is Some);
                        let j0 = spec_find_last(gt, nm@)->0;
                        let (j, sm) = choose|j: int, sm: CtxModel|
                            {
                                &&& #[trigger] spec_reaches(gt, j0, m0, j, sm)
                                &&& 0 <= j < gt.len()
                                &&& sm == mfin
                                &&& spec_pause_mirrors(gt[j], ep.pause)
                            };
                        assert(spec_phase_tree(gsv, mv, ep.phase as int) == spec_phase_tree(
                            gsv,
                            mv,
                            phase as int,
                        ));
                        assert(spec_pause_mirrors(
                            spec_phase_tree(gsv, mv, ep.phase as int)[j],
                            ep.pause,
                        ));
                        assert(spec_paused_wf(gsv, mv, ep));
                    }
                    EngineStep::Paused(ep)
                },
            }
        } else {
            proof {
                assert(spec_phase_tree(gsv, mv, phase as int) == mv);
            }
            let step = self.tree.resume(&mut ctx, pause, event);
            match step {
                WalkStep::Done => {
                    let ghost m1 = ctx_model(ctx);
                    proof {
                        if pr.pause.next is Some {
                            let nm = pr.pause.next->0;
                            if spec_find_last(mv, nm@) is Some {
                            }
                        }
                        assert(spec_tree_resume_done(mv, pr.pause, m0, m1));
                    }
                    let r = self.finish(ctx);
                    proof {
                        match &r {
                            EngineStep::Finished(resp) => {
                                assert(spec_tree_resume_done(mv, pr.pause, m0, m1)
                                    && spec_phases_finish_after(
                                    gsv,
                                    mv,
                                    phase as int,
                                    m1,
                                    *resp,
                                ));
                            },
                            EngineStep::Paused(p) => {},
                        }
                    }
                    r
                },
                WalkStep::Paused(p) => {
                    let ghost mfin = ctx_model(ctx);
                    let ep = EngineProgress { ctx: ctx, phase: phase, pause: p };
                    proof {
                        assert(pr.pause.next is Some);
                        let nm = pr.pause.next->0;
                        assert(spec_find_last(mv, nm@) is Some);
                        let j0 = spec_find_last(mv, nm@)->0;
                        let (j, sm) = choose|j: int, sm: CtxModel|
                            {
                                &&& #[trigger] spec_reaches(mv, j0, m0, j, sm)
                                &&& 0 <= j < mv.len()
                                &&& sm == mfin
                                &&& spec_pause_mirrors(mv[j], ep.pause)
                            };
                        assert(spec_phase_tree(gsv, mv, ep.phase as int) == spec_phase_tree(
                            gsv,
                            mv,
                            phase as int,
                        ));
                        assert(spec_pause_mirrors(
                            spec_phase_tree(gsv, mv, ep.phase as int)[j],
                            ep.pause,
                        ));
                        assert(spec_paused_wf(gsv, mv, ep));
                    }
                    EngineStep::Paused(ep)
                },
            }
        }
    }

    /// Runs phases from `phase` on until outside work is needed or the run
    /// finishes.
    fn advance(&self, ctx: Context, phase: usize) -> (r: EngineStep)
        requires
            phase <= self.guards@.len(),
        ensures
            r matches EngineStep::Finished(resp) ==> spec_phases_finish(
                guards_trees_view(self.guards@),
                tree_view(self.tree.tasks@),
                phase as int,
                ctx_model(ctx),
                resp,
            ),
            r matches EngineStep::Paused(p) ==> spec_paused_wf(
                guards_trees_view(self.guards@),
                tree_view(self.tree.tasks@),
                p,
            ),
        decreases (self.guards@.len() - phase) * 2 + 1,
    {
        let ghost m0 = ctx_model(ctx);
        let ghost gsv = guards_trees_view(self.guards@);
        let ghost mv = tree_view(self.tree.tasks@);
        let mut ctx = ctx;
        if phase < self.guards.len() {
            let ghost gt = gsv[phase as int];
            proof {
                assert(gt == tree_view(self.guards@[phase as int].tasks@));
            }
            let step = self.guards[phase].walk_through(&mut ctx);
            match step {
                WalkStep::Done => {
                    proof {
                        assert(spec_tree_done(gt, m0, WALK_BUDGET as nat, ctx_model(ctx)));
                    }
                    let ghost m1 = ctx_model(ctx);
                    let r = self.after_guard(ctx, phase);
                    proof {
                        match &r {
                            EngineStep::Finished(resp) => {
                                assert(spec_phases_finish(gsv, mv, phase as int, m0, *resp));
                            },
                            EngineStep::Paused(p) => {},
                        }
                    }
                    r
                },
                WalkStep::Paused(p) => {
                    let ghost mfin = ctx_model(ctx);
                    let ep = EngineProgress { ctx: ctx, phase: phase, pause: p };
                    proof {
                        assert(gt.len() > 0);
                        let (j, sm) = choose|j: int, sm: CtxModel|
                            {
                                &&& #[trigger] spec_reaches(gt, 0, m0, j, sm)
                                &&& 0 <= j < gt.len()
                                &&& sm == mfin
                                &&& spec_pause_mirrors(gt[j], ep.pause)
                            };
                        assert(spec_phase_tree(gsv, mv, phase as int) == gt);
                        assert(spec_phase_tree(gsv, mv, ep.phase as int) == spec_phase_tree(
                            gsv,
                            mv,
                            phase as int,
                        ));
                        assert(spec_pause_mirrors(
                            spec_phase_tree(gsv, mv, ep.phase as int)[j],
                            ep.pause,
                        ));
                        assert(spec_paused_wf(gsv, mv, ep));
                    }
                    EngineStep::Paused(ep)
                },
            }
        } else {
            let step = self.tree.walk_through(&mut ctx);
            match step {
                WalkStep::Done => {
                    proof {
                        assert(spec_tree_done(mv, m0, WALK_BUDGET as nat, ctx_model(ctx)));
                    }
                    let ghost m1 = ctx_model(ctx);
                    let r = self.finish(ctx);
                    proof {
                        match &r {
                            EngineStep::Finished(resp) => {
                                assert(spec_tree_done(mv, m0, WALK_BUDGET as nat, m1)
                                    && spec_response_of(*resp, m1));
                                assert(spec_phases_finish(gsv, mv, phase as int, m0, *resp));
                            },
                            EngineStep::Paused(p) => {},
                        }
                    }
                    r
                },
                WalkStep::Paused(p) => {
                    let ghost mfin = ctx_model(ctx);
                    let ep = EngineProgress { ctx: ctx, phase: phase, pause: p };
                    proof {
                        assert(mv.len() > 0);
                        let (j, sm) = choose|j: int, sm: CtxModel|
                            {
                                &&& #[trigger] spec_reaches(mv, 0, m0, j, sm)
                                &&& 0 <= j < mv.len()
                                &&& sm == mfin
                                &&& spec_pause_mirrors(mv[j], ep.pause)
                            };
                        assert(spec_phase_tree(gsv, mv, phase as int) == mv);
                        assert(spec_phase_tree(gsv, mv, ep.phase as int) == spec_phase_tree(
                            gsv,
                            mv,
                            phase as int,
                        ));
                        assert(spec_pause_mirrors(
                            spec_phase_tree(gsv, mv, ep.phase as int)[j],
                            ep.pause,
                        ));
                        assert(spec_paused_wf(gsv, mv, ep));
                    }
                    EngineStep::Paused(ep)
                },
            }
        }
    }

    /// After a finished guard: short-circuit on a non-2xx status, else the
    /// next phase.
    fn after_guard(&self, ctx: Context, phase: usize) -> (r: EngineStep)
        requires
            phase < self.guards@.len(),
        ensures
            r matches EngineStep::Finished(resp) ==> spec_phases_finish_after(
                guards_trees_view(self.guards@),
                tree_view(self.tree.tasks@),
                phase as int,
                ctx_model(ctx),
                resp,
            ),
            r matches EngineStep::Paused(p) ==> spec_paused_wf(
                guards_trees_view(self.guards@),
                tree_view(self.tree.tasks@),
                p,
            ),
        decreases (self.guards@.len() - phase) * 2,
    {
        let rv = ctx.get_return_value();
        if rv.status < 200 || rv.status >= 300 {
            let resp = build_response(rv.json, rv.status);
            return EngineStep::Finished(resp);
        }
        let glen = self.guards.len();
        if phase < glen {
            self.advance(ctx, phase + 1)
        } else {
            proof {
                assert(false);
            }
            self.advance(ctx, phase)
        }
    }

    /// Wraps the context's final return value as the response.
    fn finish(&self, ctx: Context) -> (r: EngineStep)
        ensures
            r matches EngineStep::Finished(resp) && spec_response_of(resp, ctx_model(ctx)),
    {
        let rv = ctx.get_return_value();
        let resp = build_response(rv.json, rv.status);
        EngineStep::Finished(resp)
    }
}

} // verus!

verus! {

/// The observable state of an evaluation context: the pending status and
/// return value. The interpreter's state stays outside the model.
#[verifier::ext_equal]
pub struct CtxModel {
    pub status: u16,
    pub ret: JsonSpec,
}

pub open spec fn ctx_model(c: Context) -> CtxModel {
    CtxModel { status: c.status_code, ret: c.return_json@ }
}

/// The state a runaway walk surfaces: a fatal status and a null body.
pub open spec fn spec_fatal_model() -> CtxModel {
    CtxModel { status: 500, ret: JsonSpec::Null }
}

/// One task executed without pausing: how it may change the model and which
/// successor it names. A return task installs its status and a rendering of
/// its expression; an assignment, declaration, switch or mock leaves the
/// model alone; an outbound call or a template never steps, it pauses.
pub open spec fn spec_step(
    t: TaskSpec,
    s: CtxModel,
    s2: CtxModel,
    next: Option<Seq<char>>,
) -> bool {
    match t {
        TaskSpec::Declaration { next: n, .. } => s2 == s && next == n,
        TaskSpec::Ret { expr, status, next: n, .. } => {
            &&& s2.status as int == status
            &&& spec_renders(expr, s2.ret)
            &&& next == n
        },
        TaskSpec::Assign { next: n, .. } => s2 == s && next == n,
        TaskSpec::Switch { conditions, next: n, .. } => {
            &&& s2 == s
            &&& exists|rs: Seq<JsonSpec>|
                rs.len() == conditions.len() && next == #[trigger] spec_pick(rs, conditions, n)
        },
        TaskSpec::Mock { next: n, .. } => s2 == s && next == n,
        TaskSpec::Http { .. } => false,
        TaskSpec::Template { .. } => false,
    }
}

/// Configurations a walk can reach in exactly `n` transitions from the task
/// at `i0` with model `s0`: each transition executes the current task and
/// jumps to the last task carrying the returned successor name.
pub open spec fn spec_reaches_n(
    tasks: Seq<TaskSpec>,
    i0: int,
    s0: CtxModel,
    j: int,
    s: CtxModel,
    n: nat,
) -> bool
    decreases n,
{
    if n == 0 {
        j == i0 && s == s0
    } else {
        exists|jp: int, sp: CtxModel, nm: Seq<char>|
            {
                &&& spec_reaches_n(tasks, i0, s0, jp, sp, (n - 1) as nat)
                &&& 0 <= jp < tasks.len()
                &&& #[trigger] spec_step(tasks[jp], sp, s, Some(nm))
                &&& spec_find_last(tasks, nm) == Some(j)
            }
    }
}

pub open spec fn spec_reaches(
    tasks: Seq<TaskSpec>,
    i0: int,
    s0: CtxModel,
    j: int,
    s: CtxModel,
) -> bool {
    exists|n: nat| #[trigger] spec_reaches_n(tasks, i0, s0, j, s, n)
}

/// A finished walk from the task at `i0`: some reachable task executed and
/// either named no successor or named a missing one, leaving the final
/// model; or the walk ran through its whole transition budget and surfaced
/// the fatal state.
pub open spec fn spec_walk_done_from(
    tasks: Seq<TaskSpec>,
    i0: int,
    s0: CtxModel,
    budget0: nat,
    s_end: CtxModel,
) -> bool {
    ||| exists|j: int, s: CtxModel, nx: Option<Seq<char>>|
        {
            &&& spec_reaches(tasks, i0, s0, j, s)
            &&& 0 <= j < tasks.len()
            &&& #[trigger] spec_step(tasks[j], s, s_end, nx)
            &&& match nx {
                None => true,
                Some(nm) => spec_find_last(tasks, nm) is None,
            }
        }
    ||| (exists|j: int, s: CtxModel| #[trigger] spec_reaches_n(tasks, i0, s0, j, s, budget0)
        && s_end == spec_fatal_model())
}

/// When an evaluated string is kept: a plain string stays itself, an
/// expression may have become any string.
pub open spec fn spec_eval_str_or(raw: Seq<char>, out: Seq<char>) -> bool {
    spec_plain(raw) ==> out == raw
}

/// A pause mirrors the task it interrupted: the action carries the task's
/// rendered fields, the binding carries its result variable, and the
/// successor is the task's own.
pub open spec fn spec_pause_mirrors(t: TaskSpec, p: WalkPause) -> bool {
    match t {
        TaskSpec::Http { url, method, headers, query, body, result, next, .. } => {
            &&& p.action matches PendingAction::HttpCall {
                method: m2,
                url: u2,
                headers: h2,
                query: q2,
                body: b2,
            } && m2 == method && spec_eval_str_or(url, u2@) && spec_renders_smap(
                headers,
                crate::tasks::spec_string_pairs_view(h2@),
                0,
            ) && spec_renders_smap(query, crate::tasks::spec_string_pairs_view(q2@), 0)
                && spec_renders(body, b2@) && (match result {
                Some(v) => p.binding matches ResumeBinding::BindHttp { var, url: u3 } && var@ == v
                    && u3@ == url,
                None => p.binding is NoBinding,
            })
            &&& crate::tasks::os_view(p.next) == next
        },
        TaskSpec::Template { path, headers, query, body, result, next, .. } => {
            &&& p.action matches PendingAction::TemplateCall { path: pp, request: rq }
                && spec_renders_smap(
                headers,
                crate::tasks::spec_string_pairs_view(rq.headers@),
                0,
            ) && spec_renders_smap(query, crate::tasks::spec_string_pairs_view(rq.params@), 0)
                && spec_renders(body, rq.body@) && (match result {
                Some(v) => p.binding matches ResumeBinding::BindRaw { var } && var@ == v,
                None => p.binding is NoBinding,
            })
            &&& crate::tasks::os_view(p.next) == next
        },
        TaskSpec::Mock { sleep, next, result, .. } => {
            &&& p.action matches PendingAction::Sleep { millis } && millis as int == sleep
            &&& sleep > 0
            &&& p.binding is NoBinding
            &&& crate::tasks::os_view(p.next) == next
        },
        _ => false,
    }
}

/// What one walk call yields: a finished walk's final model, or a pause at
/// a reachable task with the model at the pause and part of the budget
/// spent.
pub open spec fn spec_walk_outcome(
    tasks: Seq<TaskSpec>,
    start: int,
    m0: CtxModel,
    budget0: nat,
    r: WalkStep,
    m1: CtxModel,
) -> bool {
    match r {
        WalkStep::Done => spec_walk_done_from(tasks, start, m0, budget0, m1),
        WalkStep::Paused(p) => {
            &&& exists|j: int, s: CtxModel|
                {
                    &&& #[trigger] spec_reaches(tasks, start, m0, j, s)
                    &&& 0 <= j < tasks.len()
                    &&& s == m1
                    &&& spec_pause_mirrors(tasks[j], p)
                }
            &&& (p.budget as nat) < budget0
        },
    }
}

} // verus!

verus! {

/// A response carrying the model's return value under `response` with the
/// model's status.
pub open spec fn spec_response_of(resp: EngineResponse, m: CtxModel) -> bool {
    resp.0@ == JsonSpec::Obj(seq![("response"@, m.ret)]) && resp.1 == m.status
}

/// A guard status that short-circuits the run: below 200 or at least 300.
pub open spec fn spec_shortcut(status: u16) -> bool {
    status < 200 || status >= 300
}

pub open spec fn guards_trees_view(gs: Seq<TaskTree>) -> Seq<Seq<TaskSpec>> {
    Seq::new(gs.len(), |i: int| tree_view(gs[i].tasks@))
}

/// A whole tree walked to its end: an empty tree leaves the model alone.
pub open spec fn spec_tree_done(
    tasks: Seq<TaskSpec>,
    m0: CtxModel,
    budget0: nat,
    m1: CtxModel,
) -> bool {
    if tasks.len() == 0 {
        m1 == m0
    } else {
        spec_walk_done_from(tasks, 0, m0, budget0, m1)
    }
}

/// A paused tree resumed to its end: without a successor, or with one
/// naming no task, the model is left alone; else the walk finishes from the
/// named task on the pause's remaining budget.
pub open spec fn spec_tree_resume_done(
    tasks: Seq<TaskSpec>,
    pause: WalkPause,
    m0: CtxModel,
    m1: CtxModel,
) -> bool {
    match pause.next {
        None => m1 == m0,
        Some(nm) => match spec_find_last(tasks, nm@) {
            None => m1 == m0,
            Some(j) => spec_walk_done_from(tasks, j, m0, pause.budget as nat, m1),
        },
    }
}

/// The tree a phase walks: one guard tree per phase, outermost first, then
/// the main tree.
pub open spec fn spec_phase_tree(
    gs: Seq<Seq<TaskSpec>>,
    main: Seq<TaskSpec>,
    phase: int,
) -> Seq<TaskSpec> {
    if 0 <= phase < gs.len() {
        gs[phase]
    } else {
        main
    }
}

/// A finished run from the start of phase `phase` with model `m0`: each
/// guard tree walks to its end; the first guard ending on a short-circuit
/// status yields that guard's return value as the response; past the
/// guards, the main tree's final model is the response.
pub open spec fn spec_phases_finish(
    gs: Seq<Seq<TaskSpec>>,
    main: Seq<TaskSpec>,
    phase: int,
    m0: CtxModel,
    resp: EngineResponse,
) -> bool
    decreases gs.len() - phase,
{
    if 0 <= phase < gs.len() {
        exists|m1: CtxModel|
            #[trigger] spec_tree_done(gs[phase], m0, WALK_BUDGET as nat, m1) && ((spec_shortcut(
                m1.status,
            ) && spec_response_of(resp, m1)) || (!spec_shortcut(m1.status) && spec_phases_finish(
                gs,
                main,
                phase + 1,
                m1,
                resp,
            )))
    } else {
        exists|m1: CtxModel|
            #[trigger] spec_tree_done(main, m0, WALK_BUDGET as nat, m1) && spec_response_of(
                resp,
                m1,
            )
    }
}

/// A finished run taken from the end of phase `phase`, whose final model
/// was `m1`.
pub open spec fn spec_phases_finish_after(
    gs: Seq<Seq<TaskSpec>>,
    main: Seq<TaskSpec>,
    phase: int,
    m1: CtxModel,
    resp: EngineResponse,
) -> bool {
    if 0 <= phase < gs.len() {
        ||| (spec_shortcut(m1.status) && spec_response_of(resp, m1))
        ||| (!spec_shortcut(m1.status) && spec_phases_finish(gs, main, phase + 1, m1, resp))
    } else {
        spec_response_of(resp, m1)
    }
}

/// A suspended run pauses on an action that mirrors a task of its phase's
/// tree.
pub open spec fn spec_paused_wf(
    gs: Seq<Seq<TaskSpec>>,
    main: Seq<TaskSpec>,
    p: EngineProgress,
) -> bool {
    exists|j: int|
        0 <= j < spec_phase_tree(gs, main, p.phase as int).len() && #[trigger] spec_pause_mirrors(
            spec_phase_tree(gs, main, p.phase as int)[j],
            p.pause,
        )
}

} // verus!

verus! {

/// A tree whose single task is a return without a successor admits no
/// transition at all.
proof fn lemma_no_successor_no_transitions(t: TaskSpec, s0: CtxModel, j: int, s: CtxModel, n: nat)
    requires
        t matches TaskSpec::Ret { next, .. } && next is None,
        spec_reaches_n(seq![t], 0, s0, j, s, n),
    ensures
        n == 0 && j == 0 && s == s0,
    decreases n,
{
    if n > 0 {
        let (jp, sp, nm) = choose|jp: int, sp: CtxModel, nm: Seq<char>|
            {
                &&& spec_reaches_n(seq![t], 0, s0, jp, sp, (n - 1) as nat)
                &&& 0 <= jp < seq![t].len()
                &&& #[trigger] spec_step(seq![t][jp], sp, s, Some(nm))
                &&& spec_find_last(seq![t], nm) == Some(j)
            };
        assert(seq![t][jp] == t);
        assert(spec_step(t, sp, s, Some(nm)));
        assert(false);
    }
}

/// A run over one return task carrying a plain string and no successor
/// finishes with exactly that string under `response` and the task's own
/// status: the engine contract pins the literal-return outcome completely.
pub proof fn lemma_literal_return_response(
    t: TaskSpec,
    body: Seq<char>,
    status: int,
    m0: CtxModel,
    resp: EngineResponse,
)
    requires
        t matches TaskSpec::Ret { expr, status: st, next, name } && expr == YamlSpec::Str(body)
            && st == status && next is None,
        spec_plain(body),
        spec_phases_finish(Seq::empty(), seq![t], 0, m0, resp),
    ensures
        resp.0@ == JsonSpec::Obj(seq![("response"@, JsonSpec::Str(body))]),
        resp.1 as int == status,
{
    let tasks = seq![t];
    let m1 = choose|m1: CtxModel|
        #[trigger] spec_tree_done(tasks, m0, WALK_BUDGET as nat, m1) && spec_response_of(resp, m1);
    assert(spec_walk_done_from(tasks, 0, m0, WALK_BUDGET as nat, m1));
    if exists|j: int, s: CtxModel|
        #[trigger] spec_reaches_n(tasks, 0, m0, j, s, WALK_BUDGET as nat) && m1
            == spec_fatal_model() {
        let (j, s) = choose|j: int, s: CtxModel|
            #[trigger] spec_reaches_n(tasks, 0, m0, j, s, WALK_BUDGET as nat);
        lemma_no_successor_no_transitions(t, m0, j, s, WALK_BUDGET as nat);
        assert(false);
    }
    let (j, s, nx) = choose|j: int, s: CtxModel, nx: Option<Seq<char>>|
        {
            &&& spec_reaches(tasks, 0, m0, j, s)
            &&& 0 <= j < tasks.len()
            &&& #[trigger] spec_step(tasks[j], s, m1, nx)
            &&& match nx {
                None => true,
                Some(nm) => spec_find_last(tasks, nm) is None,
            }
        };
    assert(tasks[j] == t);
    assert(m1.status as int == status);
    assert(spec_renders(YamlSpec::Str(body), m1.ret));
    assert(m1.ret == JsonSpec::Str(body));
}

} // verus!

verus! {

/// A tree led by a template task admits no transition: templates never
/// step, they pause.
proof fn lemma_template_first_no_transitions(
    t: TaskSpec,
    t2: TaskSpec,
    s0: CtxModel,
    j: int,
    s: CtxModel,
    n: nat,
)
    requires
        t is Template,
        spec_reaches_n(seq![t, t2], 0, s0, j, s, n),
    ensures
        n == 0 && j == 0 && s == s0,
    decreases n,
{
    if n > 0 {
        let tasks = seq![t, t2];
        let (jp, sp, nm) = choose|jp: int, sp: CtxModel, nm: Seq<char>|
            {
                &&& spec_reaches_n(tasks, 0, s0, jp, sp, (n - 1) as nat)
                &&& 0 <= jp < tasks.len()
                &&& #[trigger] spec_step(tasks[jp], sp, s, Some(nm))
                &&& spec_find_last(tasks, nm) == Some(j)
            };
        lemma_template_first_no_transitions(t, t2, s0, jp, sp, (n - 1) as nat);
        assert(tasks[jp] == t);
        assert(false);
    }
}

/// A run over a tree holding a template task first and a return task after
/// it can never finish on its own: it pauses, and the pause mirrors the
/// template — its rendered request fields, result binding and successor.
pub proof fn lemma_template_first_pauses(
    t: TaskSpec,
    t2: TaskSpec,
    m0: CtxModel,
    r: EngineStep,
)
    requires
        t is Template,
        t2 is Ret,
        r matches EngineStep::Finished(resp) ==> spec_phases_finish(
            Seq::empty(),
            seq![t, t2],
            0,
            m0,
            resp,
        ),
        r matches EngineStep::Paused(p) ==> spec_paused_wf(Seq::empty(), seq![t, t2], p),
    ensures
        r matches EngineStep::Paused(p) && spec_pause_mirrors(t, p.pause),
{
    let tasks = seq![t, t2];
    match r {
        EngineStep::Finished(resp) => {
            let m1 = choose|m1: CtxModel|
                #[trigger] spec_tree_done(tasks, m0, WALK_BUDGET as nat, m1) && spec_response_of(
                    resp,
                    m1,
                );
            assert(spec_walk_done_from(tasks, 0, m0, WALK_BUDGET as nat, m1));
            if exists|j: int, s: CtxModel, nx: Option<Seq<char>>|
                {
                    &&& spec_reaches(tasks, 0, m0, j, s)
                    &&& 0 <= j < tasks.len()
                    &&& #[trigger] spec_step(tasks[j], s, m1, nx)
                    &&& match nx {
                        None => true,
                        Some(nm) => spec_find_last(tasks, nm) is None,
                    }
                } {
                let (j, s, nx) = choose|j: int, s: CtxModel, nx: Option<Seq<char>>|
                    {
                        &&& spec_reaches(tasks, 0, m0, j, s)
                        &&& 0 <= j < tasks.len()
                        &&& #[trigger] spec_step(tasks[j], s, m1, nx)
                        &&& match nx {
                            None => true,
                            Some(nm) => spec_find_last(tasks, nm) is None,
                        }
                    };
                let n = choose|n: nat| #[trigger] spec_reaches_n(tasks, 0, m0, j, s, n);
                lemma_template_first_no_transitions(t, t2, m0, j, s, n);
                assert(tasks[j] == t);
                assert(false);
            } else {
                let (j, s) = choose|j: int, s: CtxModel|
                    #[trigger] spec_reaches_n(tasks, 0, m0, j, s, WALK_BUDGET as nat);
                lemma_template_first_no_transitions(t, t2, m0, j, s, WALK_BUDGET as nat);
                assert(false);
            }
        },
        EngineStep::Paused(p) => {
            let j = choose|j: int|
                0 <= j < spec_phase_tree(Seq::empty(), tasks, p.phase as int).len()
                    && #[trigger] spec_pause_mirrors(
                    spec_phase_tree(Seq::empty(), tasks, p.phase as int)[j],
                    p.pause,
                );
            assert(spec_phase_tree(Seq::empty(), tasks, p.phase as int) == tasks);
            if j == 1 {
                assert(spec_pause_mirrors(t2, p.pause));
                assert(false);
            }
            assert(tasks[j] == t);
        },
    }
}

} // verus!
