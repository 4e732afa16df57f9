//! The request-scoped evaluation context: one sandboxed JavaScript
//! interpreter per request, the expression evaluator over it, and the
//! pending return value.

use vstd::prelude::*;
use crate::json::{JsonSpec, JsonValue};
use crate::request::Request;
use rquickjs::Context as JsInterpreter;

verus! {

/// The response snapshot taken out of a context.
pub struct ReturnValue {
    pub json: JsonValue,
    pub status: u16,
}

/// Declares `rquickjs::Context`, the embedded JavaScript interpreter, held
/// opaquely by the evaluation context.
#[verifier::external_type_specification]
#[verifier::external_body]
pub struct ExJsContext(JsInterpreter);

/// Relies on `rquickjs::Runtime::new` and `rquickjs::Context::full`: a fresh
/// interpreter with the standard intrinsics, or nothing when allocation
/// fails.
#[verifier::external_body]
fn js_new_context() -> Option<JsInterpreter> {
    let rt = rquickjs::Runtime::new().ok()?;
    JsInterpreter::full(&rt).ok()
}

/// Relies on `rquickjs::Ctx::eval` and `rquickjs_serde::from_value`:
/// evaluates JavaScript source in the interpreter and carries the result
/// over to JSON; any failure yields null. The result depends on the
/// interpreter's mutable state, so nothing is assumed of it.
#[verifier::external_body]
fn js_eval(js: &JsInterpreter, source: &str) -> JsonValue {
    js.with(|ctx| {
        ctx.eval::<rquickjs::Value, _>(source)
            .ok()
            .and_then(|v| rquickjs_serde::from_value::<serde_json::Value>(v).ok())
            .map(crate::json::json_of_outside)
            .unwrap_or(JsonValue::Null)
    })
}

/// A `${...}` expression with no nested `${` inside: evaluated as a single
/// JavaScript expression or statement.
pub open spec fn spec_is_obj(s: Seq<char>) -> bool {
    &&& s.len() >= 2
    &&& s[0] == '$'
    &&& s[1] == '{'
    &&& s.last() == '}'
    &&& !spec_has_placeholder(s.subrange(2, s.len() - 1))
}

/// Whether `${` occurs anywhere in `s`.
pub open spec fn spec_has_placeholder(s: Seq<char>) -> bool {
    exists|i: int| 0 <= i && i + 1 < s.len() && #[trigger] s[i] == '$' && s[i + 1] == '{'
}

/// A string holding `${` and `}` somewhere: evaluated as a template literal.
pub open spec fn spec_is_template(s: Seq<char>) -> bool {
    spec_has_placeholder(s) && crate::text::spec_contains_char(s, '}')
}

fn has_placeholder(s: &Vec<char>) -> (r: bool)
    ensures
        r == spec_has_placeholder(s@),
{
    let n = s.len();
    if n < 2 {
        return false;
    }
    let mut i: usize = 0;
    while i < n - 1
        invariant
            2 <= n == s@.len(),
            0 <= i <= n,
            forall|k: int| 0 <= k && k + 1 < s@.len() && k < i ==> !(#[trigger] s@[k] == '$' && s@[
                k + 1
            ] == '{'),
        decreases n - i,
    {
        if s[i] == '$' && s[i + 1] == '{' {
            return true;
        }
        i = i + 1;
    }
    false
}

fn contains_char(s: &Vec<char>, c: char) -> (r: bool)
    ensures
        r == crate::text::spec_contains_char(s@, c),
{
    let n = s.len();
    let mut i: usize = 0;
    while i < n
        invariant
            n == s@.len(),
            0 <= i <= n,
            forall|k: int| 0 <= k < i ==> s@[k] != c,
        decreases n - i,
    {
        if s[i] == c {
            return true;
        }
        i = i + 1;
    }
    false
}

/// The evaluation context of one request.
pub struct Context {
    pub js: Option<JsInterpreter>,
    pub status_code: u16,
    pub return_json: JsonValue,
}

impl Context {
    /// A fresh context over a fresh interpreter: status 200, null return
    /// value, the request reified as the `incoming` global and the DSL root
    /// as the `dsl` global.
    pub fn from_request(request: Request, dsl_path: &str) -> (r: Context)
        ensures
            r.status_code == 200,
            r.return_json@ is Null,
    {
        let ctx = Context { js: js_new_context(), status_code: 200, return_json: JsonValue::Null };
        let incoming = request.into_json();
        let mut code = String::new();
        code.append("var incoming = ");
        let incoming_text = crate::json::json_to_string(&incoming);
        code.append(incoming_text.as_str());
        ctx.evaluate_expr(Self::wrap_js_code(code.as_str()).as_str());
        let mut dsl_code = String::new();
        dsl_code.append("var dsl = ");
        let mut owned_path = String::new();
        owned_path.append(dsl_path);
        let dsl_text = crate::json::json_to_string(&JsonValue::Str(owned_path));
        dsl_code.append(dsl_text.as_str());
        ctx.evaluate_expr(Self::wrap_js_code(dsl_code.as_str()).as_str());
        ctx
    }

    /// Snapshot of the pending response.
    pub fn get_return_value(&self) -> (r: ReturnValue)
        ensures
            r.json@ == self.return_json@,
            r.status == self.status_code,
    {
        ReturnValue { json: self.return_json.deep_copy(), status: self.status_code }
    }

    /// Evaluates one JavaScript expression; a trailing `!` marks a statement
    /// whose value is discarded. Without an interpreter the value is null.
    fn execute_js_single_line(&self, expr: &Vec<char>) -> (r: JsonValue)
        ensures
            self.js is None ==> r@ is Null,
    {
        let needs_trim = expr.len() > 0 && expr[expr.len() - 1] == '!';
        let mut trimmed: Vec<char> = Vec::new();
        if needs_trim {
            let m = expr.len() - 1;
            let mut i: usize = 0;
            while i < m
                invariant
                    m < expr@.len(),
                    0 <= i <= m,
                decreases m - i,
            {
                trimmed.push(expr[i]);
                i = i + 1;
            }
        }
        let source: &Vec<char> = if needs_trim {
            &trimmed
        } else {
            expr
        };
        match &self.js {
            Some(js) => {
                let text = crate::text::chars_to_string(source);
                js_eval(js, text.as_str())
            },
            None => JsonValue::Null,
        }
    }

    /// Evaluates an expression string: a pure `${...}` form becomes a JS
    /// expression, a string holding `${...}` becomes a template literal, and
    /// every other string is returned verbatim. An expression evaluated
    /// without an interpreter yields null; so does one that throws or whose
    /// value cannot be carried to JSON (stated at the evaluation wrapper).
    pub fn evaluate_expr(&self, expr: &str) -> (r: JsonValue)
        ensures
            !spec_is_obj(expr@) && !spec_is_template(expr@) ==> r@ == JsonSpec::Str(expr@),
            (spec_is_obj(expr@) || spec_is_template(expr@)) && self.js is None ==> r@ is Null,
    {
        let cs = crate::text::str_chars(expr);
        let n = cs.len();
        if n >= 2 && cs[0] == '$' && cs[1] == '{' && cs[n - 1] == '}' {
            let mut inner: Vec<char> = Vec::new();
            let mut i: usize = 2;
            while i < n - 1
                invariant
                    n == cs@.len(),
                    2 <= i <= n - 1,
                    inner@ =~= cs@.subrange(2, i as int),
                decreases n - i,
            {
                inner.push(cs[i]);
                i = i + 1;
            }
            proof {
                assert(inner@ =~= cs@.subrange(2, n - 1));
            }
            if !has_placeholder(&inner) {
                return self.execute_js_single_line(&inner);
            }
        }
        proof {
            assert(!spec_is_obj(expr@));
        }
        let hp = has_placeholder(&cs);
        let cb = contains_char(&cs, '}');
        if hp && cb {
            let mut templ: Vec<char> = Vec::new();
            templ.push('`');
            let mut i: usize = 0;
            while i < n
                invariant
                    n == cs@.len(),
                    0 <= i <= n,
                decreases n - i,
            {
                templ.push(cs[i]);
                i = i + 1;
            }
            templ.push('`');
            return self.execute_js_single_line(&templ);
        }
        let owned = crate::text::chars_to_string(&cs);
        JsonValue::Str(owned)
    }

    /// Stores the pending response; the interpreter is untouched.
    pub fn set_return_value(&mut self, status_code: u16, value: JsonValue)
        ensures
            final (self).status_code == status_code,
            final (self).return_json == value,
            final (self).js == old(self).js,
    {
        self.status_code = status_code;
        self.return_json = value;
    }

    /// Wraps JavaScript statements as a `${...!}` expression.
    pub fn wrap_js_code(code: &str) -> (r: String)
        ensures
            r@ == "${"@ + code@ + "!}"@,
    {
        broadcast use vstd::string::group_string_axioms;

        let mut out = String::new();
        out.append("${");
        out.append(code);
        out.append("!}");
        proof {
            assert(out@ =~= "${"@ + code@ + "!}"@);
        }
        out
    }
}

} // verus!
