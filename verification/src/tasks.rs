//! The task taxonomy: seven task variants, their factories, and the shared
//! next-task resolution over the declaration order of the enclosing mapping.

use vstd::prelude::*;
use crate::yaml::{spec_get, spec_lookup_pairs, yaml_pairs_view, yaml_seq_view, YamlSpec, YamlValue};

verus! {

/// View of an optional owned string.
pub open spec fn os_view(o: Option<String>) -> Option<Seq<char>> {
    match o {
        Some(s) => Some(s@),
        None => None,
    }
}

/// String-to-string entries of a mapping value, skipping every entry whose
/// key or value is not a string.
pub open spec fn spec_str_pairs(v: YamlSpec) -> Seq<(Seq<char>, Seq<char>)> {
    match v {
        YamlSpec::Mapping(pairs) => spec_str_pairs_of(pairs),
        _ => Seq::empty(),
    }
}

pub open spec fn spec_str_pairs_of(pairs: Seq<(YamlSpec, YamlSpec)>) -> Seq<(Seq<char>, Seq<char>)>
    decreases pairs.len(),
{
    if pairs.len() == 0 {
        Seq::empty()
    } else {
        let rest = spec_str_pairs_of(pairs.drop_first());
        if pairs[0].0 matches YamlSpec::Str(k) && pairs[0].1 matches YamlSpec::Str(v) {
            seq![(pairs[0].0->Str_0, pairs[0].1->Str_0)] + rest
        } else {
            rest
        }
    }
}

#[derive(Clone, Copy, PartialEq, Eq, Structural, Debug)]
pub enum HttpMethod {
    Get,
    Post,
    Put,
    Delete,
    Patch,
}

/// The mathematical shape of a parsed task.
#[verifier::ext_equal]
pub enum TaskSpec {
    Declaration { name: Seq<char>, next: Option<Seq<char>> },
    Ret { expr: YamlSpec, status: int, next: Option<Seq<char>>, name: Seq<char> },
    Assign { expr: YamlSpec, next: Option<Seq<char>>, name: Seq<char> },
    Switch {
        conditions: Seq<(Seq<char>, Seq<char>)>,
        next: Option<Seq<char>>,
        name: Seq<char>,
    },
    Http {
        url: Seq<char>,
        method: HttpMethod,
        headers: Seq<(Seq<char>, Seq<char>)>,
        query: Seq<(Seq<char>, Seq<char>)>,
        body: YamlSpec,
        result: Option<Seq<char>>,
        next: Option<Seq<char>>,
        name: Seq<char>,
    },
    Mock {
        args: YamlSpec,
        result: Option<Seq<char>>,
        sleep: int,
        next: Option<Seq<char>>,
        name: Seq<char>,
    },
    Template {
        path: Seq<char>,
        headers: Seq<(Seq<char>, Seq<char>)>,
        query: Seq<(Seq<char>, Seq<char>)>,
        body: YamlSpec,
        result: Option<Seq<char>>,
        next: Option<Seq<char>>,
        name: Seq<char>,
    },
}

pub struct Declaration {
    pub name: String,
    pub next_task: Option<String>,
}

pub struct Ret {
    pub return_expr: YamlValue,
    pub status_code: u16,
    pub next_task: Option<String>,
    pub name: String,
}

pub struct Assign {
    pub assign_expr: YamlValue,
    pub next_task: Option<String>,
    pub name: String,
}

pub struct SwitchCondition {
    pub condition: String,
    pub next_task: String,
}

pub struct Switch {
    pub conditions: Vec<SwitchCondition>,
    pub next_task: Option<String>,
    pub name: String,
}

pub struct HttpArgs {
    pub url: String,
    pub method: HttpMethod,
    pub headers: Vec<(String, String)>,
    pub query: Vec<(String, String)>,
    pub body: YamlValue,
}

pub struct Http {
    pub next_task: Option<String>,
    pub name: String,
    pub result: Option<String>,
    pub args: HttpArgs,
}

pub struct Mock {
    pub args: YamlValue,
    pub result: Option<String>,
    pub next_task: Option<String>,
    pub name: String,
    pub sleep_mcs: u64,
}

pub struct Template {
    pub template_path: String,
    pub name: String,
    pub next_task: Option<String>,
    pub headers: Vec<(String, String)>,
    pub query: Vec<(String, String)>,
    pub body: YamlValue,
    pub result: Option<String>,
}

/// A task of the closed variant set.
pub enum Task {
    Declaration(Declaration),
    Ret(Ret),
    Assign(Assign),
    Switch(Switch),
    Http(Http),
    Mock(Mock),
    Template(Template),
}

pub open spec fn spec_conditions_view(cs: Seq<SwitchCondition>) -> Seq<(Seq<char>, Seq<char>)> {
    Seq::new(cs.len(), |i: int| (cs[i].condition@, cs[i].next_task@))
}

pub open spec fn spec_string_pairs_view(ps: Seq<(String, String)>) -> Seq<(Seq<char>, Seq<char>)> {
    Seq::new(ps.len(), |i: int| (ps[i].0@, ps[i].1@))
}

impl View for Task {
    type V = TaskSpec;

    open spec fn view(&self) -> TaskSpec {
        match self {
            Task::Declaration(t) => TaskSpec::Declaration {
                name: t.name@,
                next: os_view(t.next_task),
            },
            Task::Ret(t) => TaskSpec::Ret {
                expr: t.return_expr@,
                status: t.status_code as int,
                next: os_view(t.next_task),
                name: t.name@,
            },
            Task::Assign(t) => TaskSpec::Assign {
                expr: t.assign_expr@,
                next: os_view(t.next_task),
                name: t.name@,
            },
            Task::Switch(t) => TaskSpec::Switch {
                conditions: spec_conditions_view(t.conditions@),
                next: os_view(t.next_task),
                name: t.name@,
            },
            Task::Http(t) => TaskSpec::Http {
                url: t.args.url@,
                method: t.args.method,
                headers: spec_string_pairs_view(t.args.headers@),
                query: spec_string_pairs_view(t.args.query@),
                body: t.args.body@,
                result: os_view(t.result),
                next: os_view(t.next_task),
                name: t.name@,
            },
            Task::Mock(t) => TaskSpec::Mock {
                args: t.args@,
                result: os_view(t.result),
                sleep: t.sleep_mcs as int,
                next: os_view(t.next_task),
                name: t.name@,
            },
            Task::Template(t) => TaskSpec::Template {
                path: t.template_path@,
                headers: spec_string_pairs_view(t.headers@),
                query: spec_string_pairs_view(t.query@),
                body: t.body@,
                result: os_view(t.result),
                next: os_view(t.next_task),
                name: t.name@,
            },
        }
    }
}

pub open spec fn spec_task_name(t: TaskSpec) -> Seq<char> {
    match t {
        TaskSpec::Declaration { name, .. } => name,
        TaskSpec::Ret { name, .. } => name,
        TaskSpec::Assign { name, .. } => name,
        TaskSpec::Switch { name, .. } => name,
        TaskSpec::Http { name, .. } => name,
        TaskSpec::Mock { name, .. } => name,
        TaskSpec::Template { name, .. } => name,
    }
}

pub open spec fn spec_task_next(t: TaskSpec) -> Option<Seq<char>> {
    match t {
        TaskSpec::Declaration { next, .. } => next,
        TaskSpec::Ret { next, .. } => next,
        TaskSpec::Assign { next, .. } => next,
        TaskSpec::Switch { next, .. } => next,
        TaskSpec::Http { next, .. } => next,
        TaskSpec::Mock { next, .. } => next,
        TaskSpec::Template { next, .. } => next,
    }
}

impl Task {
    pub fn get_name(&self) -> (r: &str)
        ensures
            r@ == spec_task_name(self@),
    {
        match self {
            Task::Declaration(t) => t.name.as_str(),
            Task::Ret(t) => t.name.as_str(),
            Task::Assign(t) => t.name.as_str(),
            Task::Switch(t) => t.name.as_str(),
            Task::Http(t) => t.name.as_str(),
            Task::Mock(t) => t.name.as_str(),
            Task::Template(t) => t.name.as_str(),
        }
    }
}

/// Default next-task resolution: an explicit `next` names the successor and
/// `end` stops the tree; without one the lexical successor in declaration
/// order follows, and a last task stops. A successor key that is not a
/// string yields no successor.
pub open spec fn spec_next_task(task_name: Seq<char>, yml: YamlSpec) -> Option<Seq<char>> {
    match spec_get(yml, task_name) {
        Some(body) => match spec_get(body, "next"@) {
            Some(YamlSpec::Str(s)) => if s == "end"@ {
                None
            } else {
                Some(s)
            },
            _ => spec_successor(yml, task_name),
        },
        None => None,
    }
}

/// The key after the first key equal to `task_name`, when it is a string.
pub open spec fn spec_successor(yml: YamlSpec, task_name: Seq<char>) -> Option<Seq<char>> {
    match yml {
        YamlSpec::Mapping(pairs) => {
            if spec_lookup_pairs(pairs, task_name) is Some {
                let at = crate::merge::spec_key_at(pairs, task_name);
                if at + 1 < pairs.len() && pairs[at + 1].0 is Str {
                    Some(pairs[at + 1].0->Str_0)
                } else {
                    None
                }
            } else {
                None
            }
        },
        _ => None,
    }
}

/// Resolves the task to run after `task_name`, by its `next` field or by
/// declaration order.
pub fn get_next_task(task_name: &str, yml: &YamlValue) -> (r: Option<String>)
    ensures
        os_view(r) == spec_next_task(task_name@, yml@),
{
    let body = match yml.get(task_name) {
        Some(b) => b,
        None => {
            return None;
        },
    };
    match body.get("next") {
        Some(nv) => match nv.as_str() {
            Some(s) => {
                if crate::text::str_eq(s, "end") {
                    return None;
                }
                return Some(s.to_owned());
            },
            None => {},
        },
        None => {},
    }
    // no usable `next`: take the lexical successor
    proof {
        assert(spec_next_task(task_name@, yml@) == spec_successor(yml@, task_name@));
    }
    match yml {
        YamlValue::Mapping(pairs) => {
            let ghost pv = yaml_pairs_view(pairs@);
            proof {
                crate::merge::lemma_key_at(pv, task_name@);
            }
            let n = pairs.len();
            let mut i: usize = 0;
            while i < n
                invariant
                    n == pairs.len(),
                    pv == yaml_pairs_view(pairs@),
                    yml@ == YamlSpec::Mapping(pv),
                    spec_next_task(task_name@, yml@) == spec_successor(yml@, task_name@),
                    0 <= i <= n,
                    forall|k: int|
                        0 <= k < i ==> !(#[trigger] pv[k].0 matches YamlSpec::Str(s) && s
                            == task_name@),
                decreases n - i,
            {
                let hit = match &pairs[i].0 {
                    YamlValue::Str(s) => crate::text::str_eq(s.as_str(), task_name),
                    _ => false,
                };
                if hit {
                    proof {
                        crate::merge::lemma_key_at_index(pv, task_name@, i as int);
                    }
                    if i + 1 < n {
                        proof {
                            assert(pv[i as int + 1].0 == pairs@[i as int + 1].0@);
                        }
                        match &pairs[i + 1].0 {
                            YamlValue::Str(s2) => {
                                proof {
                                    assert(pv[i as int + 1].0 == YamlSpec::Str(s2@));
                                }
                                return Some(crate::yaml::clone_string(s2));
                            },
                            _ => {
                                return None;
                            },
                        }
                    }
                    return None;
                }
                i = i + 1;
            }
            proof {
                crate::merge::lemma_lookup_none(pv, task_name@);
            }
            None
        },
        _ => {
            proof {
                assert(spec_get(yml@, task_name@) is Some);
                assert(yml@ is Mapping);
            }
            None
        },
    }
}

} // verus!

verus! {

/// The string under an optional entry, when it is one.
pub open spec fn spec_opt_str(o: Option<YamlSpec>) -> Option<Seq<char>> {
    match o {
        Some(YamlSpec::Str(s)) => Some(s),
        _ => None,
    }
}

pub open spec fn ot_view(o: Option<Task>) -> Option<TaskSpec> {
    match o {
        Some(t) => Some(t@),
        None => None,
    }
}

pub open spec fn spec_parse_declaration(name: Seq<char>, yml: YamlSpec) -> Option<TaskSpec> {
    match spec_get(yml, name) {
        Some(body) => {
            if spec_get(body, "call"@) matches Some(c) && c == YamlSpec::Str("declare"@) {
                Some(TaskSpec::Declaration { name: name, next: spec_next_task(name, yml) })
            } else {
                None
            }
        },
        None => None,
    }
}

/// The `status` of a return task: a status that is no unsigned 16-bit
/// number falls back to 200.
pub open spec fn spec_ret_status(body: YamlSpec) -> int {
    match spec_get(body, "status"@) {
        Some(YamlSpec::Int(i)) => if 0 <= i <= 65535 {
            i
        } else {
            200
        },
        _ => 200,
    }
}

pub open spec fn spec_parse_ret(name: Seq<char>, yml: YamlSpec) -> Option<TaskSpec> {
    match spec_get(yml, name) {
        Some(body) => match spec_get(body, "return"@) {
            Some(e) => Some(
                TaskSpec::Ret {
                    expr: e,
                    status: spec_ret_status(body),
                    next: spec_next_task(name, yml),
                    name: name,
                },
            ),
            None => None,
        },
        None => None,
    }
}

pub open spec fn spec_parse_assign(name: Seq<char>, yml: YamlSpec) -> Option<TaskSpec> {
    match spec_get(yml, name) {
        Some(body) => match spec_get(body, "assign"@) {
            Some(a) => if a is Mapping {
                Some(TaskSpec::Assign { expr: a, next: spec_next_task(name, yml), name: name })
            } else {
                None
            },
            None => None,
        },
        None => None,
    }
}

/// A `${...}` condition is coerced to a boolean with `!!(...)`; any other
/// condition is kept as it stands and will evaluate to a non-boolean.
pub open spec fn spec_transform_condition(c: Seq<char>) -> Seq<char> {
    if c.len() >= 2 && c[0] == '$' && c[1] == '{' && c.last() == '}' {
        "${!!("@ + c.subrange(2, c.len() - 1) + ")}"@
    } else {
        c
    }
}

/// The usable clauses of a `switch` list: mappings carrying a string
/// `condition` and a string `next`, in order.
pub open spec fn spec_switch_clauses(items: Seq<YamlSpec>) -> Seq<(Seq<char>, Seq<char>)>
    decreases items.len(),
{
    if items.len() == 0 {
        Seq::empty()
    } else {
        let rest = spec_switch_clauses(items.drop_first());
        if items[0] is Mapping && spec_opt_str(spec_get(items[0], "condition"@)) is Some
            && spec_opt_str(spec_get(items[0], "next"@)) is Some {
            seq![
                (
                    spec_transform_condition(spec_opt_str(spec_get(items[0], "condition"@))->0),
                    spec_opt_str(spec_get(items[0], "next"@))->0,
                ),
            ] + rest
        } else {
            rest
        }
    }
}

pub open spec fn spec_parse_switch(name: Seq<char>, yml: YamlSpec) -> Option<TaskSpec> {
    match spec_get(yml, name) {
        Some(body) => match spec_get(body, "switch"@) {
            Some(sw) => if sw is Sequence {
                Some(
                    TaskSpec::Switch {
                        conditions: spec_switch_clauses(sw->Sequence_0),
                        next: spec_next_task(name, yml),
                        name: name,
                    },
                )
            } else {
                None
            },
            None => None,
        },
        None => None,
    }
}

/// The text after the last dot, or the whole string without one.
pub open spec fn spec_last_dot_segment(s: Seq<char>) -> Seq<char> {
    if crate::text::spec_contains_char(s, '.') {
        s.skip(crate::text::spec_rfind_char(s, '.') + 1)
    } else {
        s
    }
}

/// The HTTP method of a `call: http.<method>` entry.
pub open spec fn spec_parse_method(body: YamlSpec) -> Option<HttpMethod> {
    match spec_opt_str(spec_get(body, "call"@)) {
        Some(s) => {
            if s.len() >= 4 && s.take(4) == "http"@ {
                let m = spec_last_dot_segment(s);
                if m == "get"@ {
                    Some(HttpMethod::Get)
                } else if m == "post"@ {
                    Some(HttpMethod::Post)
                } else if m == "put"@ {
                    Some(HttpMethod::Put)
                } else if m == "delete"@ {
                    Some(HttpMethod::Delete)
                } else if m == "patch"@ {
                    Some(HttpMethod::Patch)
                } else {
                    None
                }
            } else {
                None
            }
        },
        None => None,
    }
}

pub open spec fn spec_field_or_null(v: YamlSpec, key: Seq<char>) -> YamlSpec {
    match spec_get(v, key) {
        Some(b) => b,
        None => YamlSpec::Null,
    }
}

pub open spec fn spec_str_pairs_field(v: YamlSpec, key: Seq<char>) -> Seq<(Seq<char>, Seq<char>)> {
    match spec_get(v, key) {
        Some(h) => spec_str_pairs(h),
        None => Seq::empty(),
    }
}

pub open spec fn spec_parse_http(name: Seq<char>, yml: YamlSpec) -> Option<TaskSpec> {
    match spec_get(yml, name) {
        Some(body) => match spec_parse_method(body) {
            Some(method) => match spec_get(body, "args"@) {
                Some(a) => match spec_opt_str(spec_get(a, "url"@)) {
                    Some(u) => Some(
                        TaskSpec::Http {
                            url: u,
                            method: method,
                            headers: spec_str_pairs_field(a, "headers"@),
                            query: spec_str_pairs_field(a, "query"@),
                            body: spec_field_or_null(a, "body"@),
                            result: spec_opt_str(spec_get(body, "result"@)),
                            next: spec_next_task(name, yml),
                            name: name,
                        },
                    ),
                    None => None,
                },
                None => None,
            },
            None => None,
        },
        None => None,
    }
}

/// The `sleep` of a mock task, in milliseconds; absent or negative is none.
pub open spec fn spec_mock_sleep(body: YamlSpec) -> int {
    match spec_get(body, "sleep"@) {
        Some(YamlSpec::Int(i)) => if i >= 0 {
            i
        } else {
            0
        },
        _ => 0,
    }
}

pub open spec fn spec_parse_mock(name: Seq<char>, yml: YamlSpec) -> Option<TaskSpec> {
    match spec_get(yml, name) {
        Some(body) => {
            if spec_get(body, "call"@) matches Some(c) && c == YamlSpec::Str("reflect.mock"@) {
                match spec_get(body, "args"@) {
                    Some(a) => Some(
                        TaskSpec::Mock {
                            args: a,
                            result: spec_opt_str(spec_get(body, "result"@)),
                            sleep: spec_mock_sleep(body),
                            next: spec_next_task(name, yml),
                            name: name,
                        },
                    ),
                    None => None,
                }
            } else {
                None
            }
        },
        None => None,
    }
}

pub open spec fn spec_parse_template(name: Seq<char>, yml: YamlSpec) -> Option<TaskSpec> {
    match spec_get(yml, name) {
        Some(body) => match spec_opt_str(spec_get(body, "template"@)) {
            Some(p) => Some(
                TaskSpec::Template {
                    path: p,
                    headers: spec_str_pairs_field(body, "headers"@),
                    query: spec_str_pairs_field(body, "query"@),
                    body: spec_field_or_null(body, "body"@),
                    result: spec_opt_str(spec_get(body, "result"@)),
                    next: spec_next_task(name, yml),
                    name: name,
                },
            ),
            None => None,
        },
        None => None,
    }
}

/// Factory dispatch, first match wins: declaration, return, assign, switch,
/// outbound HTTP, mock, template.
pub open spec fn spec_produce_task(name: Seq<char>, yml: YamlSpec) -> Option<TaskSpec> {
    if spec_parse_declaration(name, yml) is Some {
        spec_parse_declaration(name, yml)
    } else if spec_parse_ret(name, yml) is Some {
        spec_parse_ret(name, yml)
    } else if spec_parse_assign(name, yml) is Some {
        spec_parse_assign(name, yml)
    } else if spec_parse_switch(name, yml) is Some {
        spec_parse_switch(name, yml)
    } else if spec_parse_http(name, yml) is Some {
        spec_parse_http(name, yml)
    } else if spec_parse_mock(name, yml) is Some {
        spec_parse_mock(name, yml)
    } else {
        spec_parse_template(name, yml)
    }
}

/// The string under `key`, cloned, when there is one.
fn opt_str_field(body: &YamlValue, key: &str) -> (r: Option<String>)
    ensures
        os_view(r) == spec_opt_str(spec_get(body@, key@)),
{
    match body.get(key) {
        Some(v) => match v.as_str() {
            Some(s) => Some(s.to_owned()),
            None => None,
        },
        None => None,
    }
}

/// The entry under `key`, deep-copied, or null.
fn field_or_null(body: &YamlValue, key: &str) -> (r: YamlValue)
    ensures
        r@ == spec_field_or_null(body@, key@),
{
    match body.get(key) {
        Some(v) => v.deep_copy(),
        None => YamlValue::Null,
    }
}

/// The string-to-string entries of the mapping under `key`.
fn str_pairs_field(body: &YamlValue, key: &str) -> (r: Vec<(String, String)>)
    ensures
        spec_string_pairs_view(r@) == spec_str_pairs_field(body@, key@),
{
    let mut out: Vec<(String, String)> = Vec::new();
    let v = match body.get(key) {
        Some(v) => v,
        None => {
            proof {
                assert(spec_string_pairs_view(out@) =~= Seq::<(Seq<char>, Seq<char>)>::empty());
            }
            return out;
        },
    };
    match v {
        YamlValue::Mapping(pairs) => {
            let ghost pv = yaml_pairs_view(pairs@);
            proof {
                assert(pv.skip(0) =~= pv);
                assert(spec_string_pairs_view(out@) + spec_str_pairs_of(pv.skip(0))
                    =~= spec_str_pairs_of(pv));
            }
            let n = pairs.len();
            let mut i: usize = 0;
            while i < n
                invariant
                    n == pairs.len(),
                    pv == yaml_pairs_view(pairs@),
                    0 <= i <= n,
                    spec_string_pairs_view(out@) + spec_str_pairs_of(pv.skip(i as int))
                        == spec_str_pairs_of(pv),
                decreases n - i,
            {
                proof {
                    assert(pv.skip(i as int)[0] == pv[i as int]);
                    assert(pv.skip(i as int).drop_first() =~= pv.skip(i as int + 1));
                    assert(pv[i as int] == (pairs@[i as int].0@, pairs@[i as int].1@));
                }
                match (&pairs[i].0, &pairs[i].1) {
                    (YamlValue::Str(k), YamlValue::Str(w)) => {
                        let ghost prev = out@;
                        out.push((crate::yaml::clone_string(k), crate::yaml::clone_string(w)));
                        proof {
                            assert(spec_string_pairs_view(out@) =~= spec_string_pairs_view(
                                prev,
                            ).push((k@, w@)));
                            assert(spec_string_pairs_view(out@) + spec_str_pairs_of(
                                pv.skip(i as int + 1),
                            ) =~= spec_string_pairs_view(prev) + spec_str_pairs_of(
                                pv.skip(i as int),
                            ));
                        }
                    },
                    _ => {},
                }
                i = i + 1;
            }
            proof {
                assert(spec_str_pairs_of(pv.skip(n as int)).len() == 0);
                assert(spec_string_pairs_view(out@) =~= spec_string_pairs_view(out@)
                    + spec_str_pairs_of(pv.skip(n as int)));
            }
            out
        },
        _ => {
            proof {
                assert(spec_string_pairs_view(out@) =~= Seq::<(Seq<char>, Seq<char>)>::empty());
            }
            out
        },
    }
}

pub struct DeclarationFactory {}

impl DeclarationFactory {
    pub fn new() -> Self {
        Self {  }
    }

    pub fn from_yml(&self, task_name: &str, yml: &YamlValue) -> (r: Option<Task>)
        ensures
            ot_view(r) == spec_parse_declaration(task_name@, yml@),
    {
        let body = match yml.get(task_name) {
            Some(b) => b,
            None => {
                return None;
            },
        };
        let is_declare = match body.get("call") {
            Some(c) => match c.as_str() {
                Some(s) => crate::text::str_eq(s, "declare"),
                None => false,
            },
            None => false,
        };
        if !is_declare {
            return None;
        }
        let next_task = get_next_task(task_name, yml);
        Some(Task::Declaration(Declaration { name: task_name.to_owned(), next_task: next_task }))
    }
}

pub struct RetFactory {}

impl RetFactory {
    pub fn new() -> Self {
        Self {  }
    }

    pub fn from_yml(&self, task_name: &str, yml: &YamlValue) -> (r: Option<Task>)
        ensures
            ot_view(r) == spec_parse_ret(task_name@, yml@),
    {
        let body = match yml.get(task_name) {
            Some(b) => b,
            None => {
                return None;
            },
        };
        let return_expr = match body.get("return") {
            Some(e) => e.deep_copy(),
            None => {
                return None;
            },
        };
        let status_code: u16 = match body.get("status") {
            Some(v) => match v.as_u64() {
                Some(u) => if u <= 65535 {
                    u as u16
                } else {
                    200
                },
                None => 200,
            },
            None => 200,
        };
        let next_task = get_next_task(task_name, yml);
        Some(
            Task::Ret(
                Ret {
                    return_expr: return_expr,
                    status_code: status_code,
                    next_task: next_task,
                    name: task_name.to_owned(),
                },
            ),
        )
    }
}

pub struct AssignFactory {}

impl AssignFactory {
    pub fn new() -> Self {
        Self {  }
    }

    pub fn from_yml(&self, task_name: &str, yml: &YamlValue) -> (r: Option<Task>)
        ensures
            ot_view(r) == spec_parse_assign(task_name@, yml@),
    {
        let body = match yml.get(task_name) {
            Some(b) => b,
            None => {
                return None;
            },
        };
        let assign_exprs = match body.get("assign") {
            Some(a) => a,
            None => {
                return None;
            },
        };
        if !assign_exprs.is_mapping() {
            return None;
        }
        let next_task = get_next_task(task_name, yml);
        Some(
            Task::Assign(
                Assign {
                    assign_expr: assign_exprs.deep_copy(),
                    next_task: next_task,
                    name: task_name.to_owned(),
                },
            ),
        )
    }
}

pub struct SwitchFactory {}

impl SwitchFactory {
    pub fn new() -> Self {
        Self {  }
    }

    pub fn from_yml(&self, task_name: &str, yml: &YamlValue) -> (r: Option<Task>)
        ensures
            ot_view(r) == spec_parse_switch(task_name@, yml@),
    {
        let body = match yml.get(task_name) {
            Some(b) => b,
            None => {
                return None;
            },
        };
        let sw = match body.get("switch") {
            Some(s) => s,
            None => {
                return None;
            },
        };
        let items = match sw.as_sequence() {
            Some(items) => items,
            None => {
                return None;
            },
        };
        let ghost iv = yaml_seq_view(items@);
        let mut conditions: Vec<SwitchCondition> = Vec::new();
        proof {
            assert(iv.skip(0) =~= iv);
            assert(spec_conditions_view(conditions@) + spec_switch_clauses(iv.skip(0))
                =~= spec_switch_clauses(iv));
        }
        let n = items.len();
        let mut i: usize = 0;
        while i < n
            invariant
                n == items.len(),
                iv == yaml_seq_view(items@),
                0 <= i <= n,
                spec_conditions_view(conditions@) + spec_switch_clauses(iv.skip(i as int))
                    == spec_switch_clauses(iv),
            decreases n - i,
        {
            proof {
                assert(iv.skip(i as int)[0] == iv[i as int]);
                assert(iv.skip(i as int).drop_first() =~= iv.skip(i as int + 1));
                assert(iv[i as int] == items@[i as int]@);
            }
            let clause = &items[i];
            if clause.is_mapping() {
                let c_opt = opt_str_field(clause, "condition");
                let n_opt = opt_str_field(clause, "next");
                match (c_opt, n_opt) {
                    (Some(c), Some(nx)) => {
                        let transformed = transform_condition(c.as_str());
                        let ghost prev = conditions@;
                        conditions.push(
                            SwitchCondition { condition: transformed, next_task: nx },
                        );
                        proof {
                            assert(spec_conditions_view(conditions@) =~= spec_conditions_view(
                                prev,
                            ).push((spec_transform_condition(c@), nx@)));
                            assert(spec_conditions_view(conditions@) + spec_switch_clauses(
                                iv.skip(i as int + 1),
                            ) =~= spec_conditions_view(prev) + spec_switch_clauses(
                                iv.skip(i as int),
                            ));
                        }
                    },
                    _ => {},
                }
            }
            i = i + 1;
        }
        proof {
            assert(spec_switch_clauses(iv.skip(n as int)).len() == 0);
            assert(spec_conditions_view(conditions@) =~= spec_conditions_view(conditions@)
                + spec_switch_clauses(iv.skip(n as int)));
        }
        let next_task = get_next_task(task_name, yml);
        Some(
            Task::Switch(
                Switch {
                    conditions: conditions,
                    next_task: next_task,
                    name: task_name.to_owned(),
                },
            ),
        )
    }
}

/// Coerces a `${...}` condition to a boolean test.
fn transform_condition(c: &str) -> (r: String)
    ensures
        r@ == spec_transform_condition(c@),
{
    broadcast use vstd::string::group_string_axioms;

    let cs = crate::text::str_chars(c);
    let n = cs.len();
    if n >= 2 && cs[0] == '$' && cs[1] == '{' && cs[n - 1] == '}' {
        let mut inner: Vec<char> = Vec::new();
        let mut i: usize = 2;
        while i < n - 1
            invariant
                n == cs@.len(),
                2 <= i <= n - 1,
                inner@ =~= cs@.subrange(2, i as int),
            decreases n - i,
        {
            inner.push(cs[i]);
            i = i + 1;
        }
        proof {
            assert(inner@ =~= cs@.subrange(2, n - 1));
        }
        let inner_str = crate::text::chars_to_string(&inner);
        let mut out = String::new();
        out.append("${!!(");
        out.append(inner_str.as_str());
        out.append(")}");
        proof {
            assert(out@ =~= "${!!("@ + c@.subrange(2, c@.len() - 1) + ")}"@);
        }
        out
    } else {
        crate::text::chars_to_string(&cs)
    }
}

} // verus!

verus! {

pub struct HttpFactory {}

impl HttpFactory {
    pub fn new() -> Self {
        Self {  }
    }

    fn parse_method(&self, body: &YamlValue) -> (r: Option<HttpMethod>)
        ensures
            r == spec_parse_method(body@),
    {
        let call = match opt_str_field(body, "call") {
            Some(s) => s,
            None => {
                return None;
            },
        };
        if !crate::text::str_starts_with(call.as_str(), "http") {
            proof {
                reveal_strlit("http");
            }
            return None;
        }
        proof {
            reveal_strlit("http");
        }
        let cs = crate::text::str_chars(call.as_str());
        let seg = match crate::text::rfind_char(&cs, '.') {
            Some(j) => {
                proof {
                    crate::text::lemma_rfind_char(cs@, '.');
                }
                let m = cs.len();
                let mut out: Vec<char> = Vec::new();
                let mut i: usize = j + 1;
                while i < m
                    invariant
                        m == cs@.len(),
                        j + 1 <= i <= m,
                        out@ =~= cs@.subrange(j + 1, i as int),
                    decreases m - i,
                {
                    out.push(cs[i]);
                    i = i + 1;
                }
                proof {
                    assert(out@ =~= cs@.skip(j + 1));
                }
                crate::text::chars_to_string(&out)
            },
            None => crate::text::chars_to_string(&cs),
        };
        if crate::text::str_eq(seg.as_str(), "get") {
            Some(HttpMethod::Get)
        } else if crate::text::str_eq(seg.as_str(), "post") {
            Some(HttpMethod::Post)
        } else if crate::text::str_eq(seg.as_str(), "put") {
            Some(HttpMethod::Put)
        } else if crate::text::str_eq(seg.as_str(), "delete") {
            Some(HttpMethod::Delete)
        } else if crate::text::str_eq(seg.as_str(), "patch") {
            Some(HttpMethod::Patch)
        } else {
            None
        }
    }

    pub fn from_yml(&self, task_name: &str, yml: &YamlValue) -> (r: Option<Task>)
        ensures
            ot_view(r) == spec_parse_http(task_name@, yml@),
    {
        let body = match yml.get(task_name) {
            Some(b) => b,
            None => {
                return None;
            },
        };
        let method = match self.parse_method(body) {
            Some(m) => m,
            None => {
                return None;
            },
        };
        let args_yml = match body.get("args") {
            Some(a) => a,
            None => {
                return None;
            },
        };
        let url = match opt_str_field(args_yml, "url") {
            Some(u) => u,
            None => {
                return None;
            },
        };
        let headers = str_pairs_field(args_yml, "headers");
        let query = str_pairs_field(args_yml, "query");
        let body_val = field_or_null(args_yml, "body");
        let result = opt_str_field(body, "result");
        let next_task = get_next_task(task_name, yml);
        Some(
            Task::Http(
                Http {
                    next_task: next_task,
                    name: task_name.to_owned(),
                    result: result,
                    args: HttpArgs {
                        url: url,
                        method: method,
                        headers: headers,
                        query: query,
                        body: body_val,
                    },
                },
            ),
        )
    }
}

pub struct MockFactory {}

impl MockFactory {
    pub fn new() -> Self {
        Self {  }
    }

    pub fn from_yml(&self, task_name: &str, yml: &YamlValue) -> (r: Option<Task>)
        ensures
            ot_view(r) == spec_parse_mock(task_name@, yml@),
    {
        let body = match yml.get(task_name) {
            Some(b) => b,
            None => {
                return None;
            },
        };
        let is_mock = match body.get("call") {
            Some(c) => match c.as_str() {
                Some(s) => crate::text::str_eq(s, "reflect.mock"),
                None => false,
            },
            None => false,
        };
        if !is_mock {
            return None;
        }
        let args = match body.get("args") {
            Some(a) => a.deep_copy(),
            None => {
                return None;
            },
        };
        let result = opt_str_field(body, "result");
        let sleep_mcs: u64 = match body.get("sleep") {
            Some(v) => match v.as_u64() {
                Some(u) => u,
                None => 0,
            },
            None => 0,
        };
        let next_task = get_next_task(task_name, yml);
        Some(
            Task::Mock(
                Mock {
                    args: args,
                    result: result,
                    next_task: next_task,
                    name: task_name.to_owned(),
                    sleep_mcs: sleep_mcs,
                },
            ),
        )
    }
}

pub struct TemplateFactory {}

impl TemplateFactory {
    pub fn new() -> Self {
        Self {  }
    }

    pub fn from_yml(&self, task_name: &str, yml: &YamlValue) -> (r: Option<Task>)
        ensures
            ot_view(r) == spec_parse_template(task_name@, yml@),
    {
        let next_task = get_next_task(task_name, yml);
        let body = match yml.get(task_name) {
            Some(b) => b,
            None => {
                return None;
            },
        };
        let template_path = match opt_str_field(body, "template") {
            Some(p) => p,
            None => {
                return None;
            },
        };
        let query = str_pairs_field(body, "query");
        let headers = str_pairs_field(body, "headers");
        let body_val = field_or_null(body, "body");
        let result = opt_str_field(body, "result");
        Some(
            Task::Template(
                Template {
                    template_path: template_path,
                    name: task_name.to_owned(),
                    next_task: next_task,
                    headers: headers,
                    query: query,
                    body: body_val,
                    result: result,
                },
            ),
        )
    }
}

/// Hands the task body to each factory in turn; the first parse wins.
pub fn produce_task(task_name: &str, global_value: &YamlValue) -> (r: Option<Task>)
    ensures
        ot_view(r) == spec_produce_task(task_name@, global_value@),
{
    let declaration = DeclarationFactory::new().from_yml(task_name, global_value);
    if declaration.is_some() {
        return declaration;
    }
    let ret = RetFactory::new().from_yml(task_name, global_value);
    if ret.is_some() {
        return ret;
    }
    let assign = AssignFactory::new().from_yml(task_name, global_value);
    if assign.is_some() {
        return assign;
    }
    let switch = SwitchFactory::new().from_yml(task_name, global_value);
    if switch.is_some() {
        return switch;
    }
    let http = HttpFactory::new().from_yml(task_name, global_value);
    if http.is_some() {
        return http;
    }
    let mock = MockFactory::new().from_yml(task_name, global_value);
    if mock.is_some() {
        return mock;
    }
    TemplateFactory::new().from_yml(task_name, global_value)
}

} // verus!
