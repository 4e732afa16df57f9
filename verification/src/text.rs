//! Character-level text utilities: conversions between `String` and
//! `Vec<char>`, searching, and the `[#VAR]` environment-variable
//! substitution applied to every string of a task tree before execution.

use vstd::prelude::*;
use vstd::std_specs::iter::IteratorSpec;

verus! {

/// The view of an environment: an association list from variable names to
/// values, both as character sequences.
pub open spec fn env_view(env: Seq<(String, String)>) -> Seq<(Seq<char>, Seq<char>)> {
    env.map_values(|p: (String, String)| (p.0@, p.1@))
}

/// Value of the first binding of `name`, or empty when `name` is unbound.
pub open spec fn spec_env_lookup(env: Seq<(Seq<char>, Seq<char>)>, name: Seq<char>) -> Seq<char>
    decreases env.len(),
{
    if env.len() == 0 {
        Seq::empty()
    } else if env[0].0 == name {
        env[0].1
    } else {
        spec_env_lookup(env.drop_first(), name)
    }
}

pub open spec fn spec_contains_char(s: Seq<char>, c: char) -> bool {
    exists|i: int| 0 <= i < s.len() && s[i] == c
}

/// Index of the first occurrence of `c` in `s`; meaningful only when
/// `spec_contains_char(s, c)` holds.
pub open spec fn spec_find_char(s: Seq<char>, c: char) -> int
    decreases s.len(),
{
    if s.len() == 0 {
        0
    } else if s[0] == c {
        0
    } else {
        1 + spec_find_char(s.drop_first(), c)
    }
}

pub proof fn lemma_find_char(s: Seq<char>, c: char)
    requires
        spec_contains_char(s, c),
    ensures
        0 <= spec_find_char(s, c) < s.len(),
        s[spec_find_char(s, c)] == c,
        forall|k: int| 0 <= k < spec_find_char(s, c) ==> s[k] != c,
    decreases s.len(),
{
    if s.len() == 0 {
    } else if s[0] == c {
    } else {
        let t = s.drop_first();
        assert(spec_contains_char(t, c)) by {
            let i = choose|i: int| 0 <= i < s.len() && s[i] == c;
            assert(t[i - 1] == c);
        }
        lemma_find_char(t, c);
        assert forall|k: int| 0 <= k < spec_find_char(s, c) implies s[k] != c by {
            if k > 0 {
                assert(s[k] == t[k - 1]);
            }
        }
    }
}

/// `[#VAR]` substitution over a character sequence: every occurrence of
/// `[#name]` is replaced by the environment value of `name`, scanning left to
/// right; an unterminated `[#` leaves the remainder verbatim.
pub open spec fn spec_fill_env_vars(s: Seq<char>, env: Seq<(Seq<char>, Seq<char>)>) -> Seq<char>
    decreases s.len(),
    via spec_fill_env_vars_decreases
{
    if s.len() < 2 {
        s
    } else if s[0] == '[' && s[1] == '#' {
        let rest = s.skip(2);
        if spec_contains_char(rest, ']') {
            let j = spec_find_char(rest, ']');
            spec_env_lookup(env, rest.take(j)) + spec_fill_env_vars(rest.skip(j + 1), env)
        } else {
            s
        }
    } else {
        seq![s[0]] + spec_fill_env_vars(s.drop_first(), env)
    }
}

#[via_fn]
proof fn spec_fill_env_vars_decreases(s: Seq<char>, env: Seq<(Seq<char>, Seq<char>)>) {
    if s.len() >= 2 && s[0] == '[' && s[1] == '#' {
        let rest = s.skip(2);
        if spec_contains_char(rest, ']') {
            lemma_find_char(rest, ']');
        }
    }
}

pub open spec fn spec_has_marker(s: Seq<char>) -> bool {
    exists|i: int| 0 <= i && i + 1 < s.len() && #[trigger] s[i] == '[' && s[i + 1] == '#'
}

/// A string without the `[#` marker is left unchanged by substitution.
pub proof fn lemma_fill_no_marker(s: Seq<char>, env: Seq<(Seq<char>, Seq<char>)>)
    requires
        !spec_has_marker(s),
    ensures
        spec_fill_env_vars(s, env) == s,
    decreases s.len(),
{
    if s.len() < 2 {
    } else if s[0] == '[' && s[1] == '#' {
        assert(spec_has_marker(s));
    } else {
        let t = s.drop_first();
        assert(!spec_has_marker(t)) by {
            if spec_has_marker(t) {
                let i = choose|i: int|
                    0 <= i && i + 1 < t.len() && #[trigger] t[i] == '[' && t[i + 1] == '#';
                assert(s[i + 1] == '[' && s[i + 2] == '#');
            }
        }
        lemma_fill_no_marker(t, env);
        assert(spec_fill_env_vars(s, env) =~= s);
    }
}

/// One occurrence is substituted exactly once: the value that replaces
/// `[#name]` is emitted verbatim, even when it itself holds a `[#` marker,
/// and scanning resumes after the closing bracket only.
pub proof fn lemma_fill_substitutes_once(
    name: Seq<char>,
    rest: Seq<char>,
    env: Seq<(Seq<char>, Seq<char>)>,
)
    requires
        !spec_contains_char(name, ']'),
    ensures
        spec_fill_env_vars(seq!['[', '#'] + name + seq![']'] + rest, env) == spec_env_lookup(
            env,
            name,
        ) + spec_fill_env_vars(rest, env),
{
    let s = seq!['[', '#'] + name + seq![']'] + rest;
    let body = s.skip(2);
    assert(body =~= name + seq![']'] + rest);
    assert(body[name.len() as int] == ']');
    assert(spec_contains_char(body, ']'));
    lemma_find_char(body, ']');
    let j = spec_find_char(body, ']');
    assert forall|k: int| 0 <= k < name.len() implies body[k] != ']' by {
        assert(body[k] == name[k]);
    }
    assert(j == name.len()) by {
        if j < name.len() {
            assert(body[j] == name[j]);
        }
    }
    assert(body.take(j) =~= name);
    assert(body.skip(j + 1) =~= rest);
}

/// Collects the characters of a string slice, verified against the
/// character-iterator specifications of the standard library.
pub fn str_chars(s: &str) -> (r: Vec<char>)
    ensures
        r@ == s@,
{
    broadcast use vstd::string::axiom_spec_iter;
    broadcast use vstd::string::next_postcondition;

    let mut it = s.chars();
    let mut r: Vec<char> = Vec::new();
    loop
        invariant
            it.obeys_prophetic_iter_laws(),
            it.decrease() is Some,
            r@ + it.remaining() == s@,
        ensures
            r@ == s@,
        decreases it.decrease()->0,
    {
        let c_opt = it.next();
        match c_opt {
            Some(c) => {
                r.push(c);
                proof {
                    assert(r@ + it.remaining() =~= s@);
                }
            },
            None => {
                proof {
                    assert(r@ =~= s@);
                }
                break ;
            },
        }
    }
    r
}

/// Relies on `String: FromIterator<char>`: collecting characters yields the
/// string made of exactly those characters in order.
#[verifier::external_body]
pub fn chars_to_string(cs: &Vec<char>) -> (r: String)
    ensures
        r@ == cs@,
{
    cs.iter().collect()
}

pub fn str_eq(a: &str, b: &str) -> (r: bool)
    ensures
        r == (a@ == b@),
{
    let ca = str_chars(a);
    let cb = str_chars(b);
    chars_eq(&ca, &cb)
}

pub fn chars_eq(a: &Vec<char>, b: &Vec<char>) -> (r: bool)
    ensures
        r == (a@ == b@),
{
    if a.len() != b.len() {
        return false;
    }
    let n = a.len();
    let mut i: usize = 0;
    while i < n
        invariant
            n == a.len() == b.len(),
            0 <= i <= n,
            forall|k: int| 0 <= k < i ==> a@[k] == b@[k],
        decreases n - i,
    {
        if a[i] != b[i] {
            return false;
        }
        i = i + 1;
    }
    proof {
        assert(a@ =~= b@);
    }
    true
}

fn env_lookup(env: &Vec<(String, String)>, name: &Vec<char>) -> (r: Vec<char>)
    ensures
        r@ == spec_env_lookup(env_view(env@), name@),
{
    let ghost ev = env_view(env@);
    proof {
        assert(ev.skip(0) =~= ev);
    }
    let n = env.len();
    let mut i: usize = 0;
    while i < n
        invariant
            n == env.len(),
            0 <= i <= n,
            ev == env_view(env@),
            spec_env_lookup(ev, name@) == spec_env_lookup(ev.skip(i as int), name@),
        decreases n - i,
    {
        let key = str_chars(env[i].0.as_str());
        if chars_eq(&key, name) {
            proof {
                assert(ev.skip(i as int)[0] == ev[i as int]);
            }
            return str_chars(env[i].1.as_str());
        }
        proof {
            assert(ev.skip(i as int)[0] == ev[i as int]);
            assert(ev.skip(i as int).drop_first() =~= ev.skip(i as int + 1));
        }
        i = i + 1;
    }
    proof {
        assert(ev.skip(n as int).len() == 0);
    }
    Vec::new()
}

/// Substitutes every `[#VAR]` occurrence in `s`, left to right.
#[verifier::rlimit(60)]
pub fn fill_env_chars(s: &Vec<char>, env: &Vec<(String, String)>) -> (r: Vec<char>)
    ensures
        r@ == spec_fill_env_vars(s@, env_view(env@)),
{
    let ghost ev = env_view(env@);
    let n = s.len();
    let mut out: Vec<char> = Vec::new();
    let mut i: usize = 0;
    proof {
        assert(s@.skip(0) =~= s@);
    }
    while i < n
        invariant
            n == s.len(),
            0 <= i <= n,
            ev == env_view(env@),
            out@ + spec_fill_env_vars(s@.skip(i as int), ev) == spec_fill_env_vars(s@, ev),
        decreases n - i,
    {
        let ghost tail = s@.skip(i as int);
        proof {
            assert(tail[0] == s@[i as int]);
        }
        if s[i] == '[' && i + 1 < n && s[i + 1] == '#' {
            proof {
                assert(tail[1] == s@[i as int + 1]);
            }
            let ghost rest = tail.skip(2);
            proof {
                assert(rest =~= s@.skip(i as int + 2));
            }
            // scan for the closing bracket
            let mut j: usize = i + 2;
            while j < n && s[j] != ']'
                invariant
                    n == s.len(),
                    i + 2 <= j <= n,
                    forall|k: int| i + 2 <= k < j ==> s@[k] != ']',
                decreases n - j,
            {
                j = j + 1;
            }
            if j < n {
                // closing bracket at j; the name is s[i+2 .. j]
                proof {
                    assert(rest[j - i - 2] == s@[j as int]);
                    assert(spec_contains_char(rest, ']'));
                    lemma_find_char(rest, ']');
                    assert forall|k: int| 0 <= k < j - i - 2 implies rest[k] != ']' by {
                        assert(rest[k] == s@[i + 2 + k]);
                    }
                    assert(spec_find_char(rest, ']') == j - i - 2) by {
                        let f = spec_find_char(rest, ']');
                        if f < j - i - 2 {
                            assert(rest[f] == s@[i + 2 + f]);
                        }
                    }
                }
                let mut name: Vec<char> = Vec::new();
                let mut k: usize = i + 2;
                while k < j
                    invariant
                        n == s.len(),
                        i + 2 <= k <= j <= n,
                        name@ =~= s@.subrange(i as int + 2, k as int),
                    decreases j - k,
                {
                    name.push(s[k]);
                    k = k + 1;
                }
                proof {
                    assert(name@ =~= rest.take(j - i - 2));
                }
                let val = env_lookup(env, &name);
                let ghost out0 = out@;
                let mut vi: usize = 0;
                let vn = val.len();
                while vi < vn
                    invariant
                        vn == val.len(),
                        0 <= vi <= vn,
                        out@ =~= out0 + val@.take(vi as int),
                    decreases vn - vi,
                {
                    out.push(val[vi]);
                    vi = vi + 1;
                }
                proof {
                    assert(val@.take(vn as int) =~= val@);
                    assert(rest.skip(j - i - 2 + 1) =~= s@.skip(j as int + 1));
                    assert(spec_fill_env_vars(tail, ev) == val@ + spec_fill_env_vars(
                        s@.skip(j as int + 1),
                        ev,
                    ));
                    assert(out@ + spec_fill_env_vars(s@.skip(j as int + 1), ev)
                        =~= spec_fill_env_vars(s@, ev));
                }
                i = j + 1;
            } else {
                // unterminated marker: emit the remainder verbatim
                proof {
                    assert(!spec_contains_char(rest, ']')) by {
                        if spec_contains_char(rest, ']') {
                            let m = choose|m: int| 0 <= m < rest.len() && rest[m] == ']';
                            assert(s@[i + 2 + m] == ']');
                        }
                    }
                    assert(spec_fill_env_vars(tail, ev) == tail);
                }
                let ghost out0 = out@;
                let mut k: usize = i;
                while k < n
                    invariant
                        n == s.len(),
                        i <= k <= n,
                        out@ =~= out0 + s@.subrange(i as int, k as int),
                    decreases n - k,
                {
                    out.push(s[k]);
                    k = k + 1;
                }
                proof {
                    assert(s@.subrange(i as int, n as int) =~= tail);
                    assert(s@.skip(n as int).len() == 0);
                    assert(out@ + s@.skip(n as int) =~= spec_fill_env_vars(s@, ev));
                }
                i = n;
            }
        } else {
            out.push(s[i]);
            proof {
                if tail.len() >= 2 {
                    assert(tail[1] == s@[i as int + 1]);
                }
                assert(tail.drop_first() =~= s@.skip(i as int + 1));
                assert(spec_fill_env_vars(tail, ev) == seq![tail[0]] + spec_fill_env_vars(
                    tail.drop_first(),
                    ev,
                ));
                assert(out@ + spec_fill_env_vars(s@.skip(i as int + 1), ev) =~= spec_fill_env_vars(
                    s@,
                    ev,
                ));
            }
            i = i + 1;
        }
    }
    proof {
        assert(s@.skip(n as int).len() == 0);
        assert(out@ =~= out@ + s@.skip(n as int));
    }
    out
}

/// Index of the last occurrence of `c` in `s`; meaningful only when
/// `spec_contains_char(s, c)` holds.
pub open spec fn spec_rfind_char(s: Seq<char>, c: char) -> int
    decreases s.len(),
{
    if s.len() == 0 {
        0
    } else if s.last() == c {
        s.len() - 1
    } else {
        spec_rfind_char(s.drop_last(), c)
    }
}

pub proof fn lemma_rfind_char(s: Seq<char>, c: char)
    requires
        spec_contains_char(s, c),
    ensures
        0 <= spec_rfind_char(s, c) < s.len(),
        s[spec_rfind_char(s, c)] == c,
        forall|k: int| spec_rfind_char(s, c) < k < s.len() ==> s[k] != c,
    decreases s.len(),
{
    if s.len() == 0 {
    } else if s.last() == c {
    } else {
        let t = s.drop_last();
        assert(spec_contains_char(t, c)) by {
            let i = choose|i: int| 0 <= i < s.len() && s[i] == c;
            assert(i != s.len() - 1);
            assert(t[i] == c);
        }
        lemma_rfind_char(t, c);
        assert(s[spec_rfind_char(s, c)] == t[spec_rfind_char(t, c)]);
        assert forall|k: int| spec_rfind_char(s, c) < k < s.len() implies s[k] != c by {
            if k < s.len() - 1 {
                assert(s[k] == t[k]);
            }
        }
    }
}

/// Index of the last occurrence of `c`, or `None`.
pub fn rfind_char(s: &Vec<char>, c: char) -> (r: Option<usize>)
    ensures
        match r {
            Some(j) => spec_contains_char(s@, c) && j == spec_rfind_char(s@, c),
            None => !spec_contains_char(s@, c),
        },
{
    let n = s.len();
    let mut j: usize = n;
    while j > 0
        invariant
            n == s.len(),
            0 <= j <= n,
            forall|k: int| j <= k < n ==> s@[k] != c,
        decreases j,
    {
        j = j - 1;
        if s[j] == c {
            proof {
                assert(s@[j as int] == c);
                assert(spec_contains_char(s@, c));
                lemma_rfind_char(s@, c);
                let f = spec_rfind_char(s@, c);
                if f > j {
                    assert(s@[f] != c);
                }
            }
            return Some(j);
        }
    }
    proof {
        if spec_contains_char(s@, c) {
            let i = choose|i: int| 0 <= i < s@.len() && s@[i] == c;
        }
    }
    None
}

/// The file stem of a name: everything before the last dot, unless the only
/// dot leads the name.
pub open spec fn spec_stem(s: Seq<char>) -> Seq<char> {
    if spec_contains_char(s, '.') && spec_rfind_char(s, '.') >= 1 {
        s.take(spec_rfind_char(s, '.'))
    } else {
        s
    }
}

pub fn file_stem(name: &str) -> (r: String)
    ensures
        r@ == spec_stem(name@),
{
    let cs = str_chars(name);
    match rfind_char(&cs, '.') {
        Some(j) if j >= 1 => {
            proof {
                lemma_rfind_char(cs@, '.');
            }
            let mut out: Vec<char> = Vec::new();
            let mut i: usize = 0;
            while i < j
                invariant
                    0 <= i <= j < cs@.len(),
                    out@ =~= cs@.take(i as int),
                decreases j - i,
            {
                out.push(cs[i]);
                i = i + 1;
            }
            chars_to_string(&out)
        },
        _ => chars_to_string(&cs),
    }
}

/// The last `/`-separated segment, or the whole string without one.
pub open spec fn spec_last_segment(s: Seq<char>) -> Seq<char> {
    if spec_contains_char(s, '/') {
        s.skip(spec_rfind_char(s, '/') + 1)
    } else {
        s
    }
}

pub fn last_segment(s: &str) -> (r: String)
    ensures
        r@ == spec_last_segment(s@),
{
    let cs = str_chars(s);
    match rfind_char(&cs, '/') {
        Some(j) => {
            proof {
                lemma_rfind_char(cs@, '/');
            }
            let n = cs.len();
            let mut out: Vec<char> = Vec::new();
            let mut i: usize = j + 1;
            while i < n
                invariant
                    n == cs@.len(),
                    j + 1 <= i <= n,
                    out@ =~= cs@.subrange(j + 1, i as int),
                decreases n - i,
            {
                out.push(cs[i]);
                i = i + 1;
            }
            proof {
                assert(cs@.subrange(j + 1, n as int) =~= cs@.skip(j + 1));
            }
            chars_to_string(&out)
        },
        None => chars_to_string(&cs),
    }
}

/// Whether `s` begins with `prefix`.
pub fn str_starts_with(s: &str, prefix: &str) -> (r: bool)
    ensures
        r == (s@.len() >= prefix@.len() && s@.take(prefix@.len() as int) == prefix@),
{
    let cs = str_chars(s);
    let cp = str_chars(prefix);
    let np = cp.len();
    if cs.len() < np {
        return false;
    }
    let mut i: usize = 0;
    while i < np
        invariant
            np == cp@.len() <= cs@.len(),
            cs@ == s@,
            cp@ == prefix@,
            0 <= i <= np,
            forall|k: int| 0 <= k < i ==> cs@[k] == cp@[k],
        decreases np - i,
    {
        if cs[i] != cp[i] {
            proof {
                assert(s@.take(prefix@.len() as int)[i as int] != prefix@[i as int]);
            }
            return false;
        }
        i = i + 1;
    }
    proof {
        assert(s@.take(prefix@.len() as int) =~= prefix@);
    }
    true
}

/// Appends `"/"` and `name` to `prefix`.
pub fn join_url(prefix: &str, name: &str) -> (r: String)
    ensures
        r@ == prefix@ + "/"@ + name@,
{
    broadcast use vstd::string::group_string_axioms;

    let mut out = String::new();
    out.append(prefix);
    out.append("/");
    out.append(name);
    proof {
        assert(out@ =~= prefix@ + "/"@ + name@);
    }
    out
}

/// `[#VAR]` substitution on a string, against the exact substitution
/// specification.
pub fn fill_env_vars(value: &str, env: &Vec<(String, String)>) -> (r: String)
    ensures
        r@ == spec_fill_env_vars(value@, env_view(env@)),
{
    let cs = str_chars(value);
    let filled = fill_env_chars(&cs, env);
    chars_to_string(&filled)
}

} // verus!
