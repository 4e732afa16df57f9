//! Endpoint data model: guards, endpoints and the collection a DSL
//! directory tree loads into.

use vstd::prelude::*;
use crate::yaml::{YamlSpec, YamlValue};

verus! {

/// A task graph attached to a directory, run before every endpoint below it.
pub struct Guard {
    pub yml_content: YamlValue,
}

#[derive(Clone, Copy, PartialEq, Eq, Structural, Debug)]
pub enum EndpointMethod {
    Get,
    Post,
}

/// One loaded endpoint: its guards (outermost first), project tag, URL path,
/// HTTP method, parsed YAML and merged declaration document.
pub struct Endpoint {
    pub guards: Vec<Guard>,
    pub tag: String,
    pub url_path: String,
    pub method: EndpointMethod,
    pub yml_content: YamlValue,
    pub merged_declaration: String,
}

pub struct EndpointsCollection {
    pub endpoints: Vec<Endpoint>,
}

impl View for Guard {
    type V = YamlSpec;

    open spec fn view(&self) -> YamlSpec {
        self.yml_content@
    }
}

pub open spec fn guards_view(gs: Seq<Guard>) -> Seq<YamlSpec> {
    Seq::new(gs.len(), |i: int| gs[i]@)
}

/// The mathematical shape of an endpoint.
#[verifier::ext_equal]
pub struct EndpointSpec {
    pub guards: Seq<YamlSpec>,
    pub tag: Seq<char>,
    pub url_path: Seq<char>,
    pub method: EndpointMethod,
    pub yml_content: YamlSpec,
    pub merged_declaration: Seq<char>,
}

impl View for Endpoint {
    type V = EndpointSpec;

    open spec fn view(&self) -> EndpointSpec {
        EndpointSpec {
            guards: guards_view(self.guards@),
            tag: self.tag@,
            url_path: self.url_path@,
            method: self.method,
            yml_content: self.yml_content@,
            merged_declaration: self.merged_declaration@,
        }
    }
}

pub open spec fn endpoints_view(es: Seq<Endpoint>) -> Seq<EndpointSpec> {
    Seq::new(es.len(), |i: int| es[i]@)
}

impl Endpoint {
    pub fn get_url_path(&self) -> (r: &str)
        ensures
            r@ == self.url_path@,
    {
        self.url_path.as_str()
    }

    pub fn get_endpoint_method(&self) -> (r: &EndpointMethod)
        ensures
            *r == self.method,
    {
        &self.method
    }

    pub fn get_endpoint_tag(&self) -> (r: &str)
        ensures
            r@ == self.tag@,
    {
        self.tag.as_str()
    }

    pub fn get_yml_declaration_str(&self) -> (r: Option<&str>)
        ensures
            r matches Some(s) && s@ == self.merged_declaration@,
    {
        Some(self.merged_declaration.as_str())
    }
}

impl EndpointsCollection {
    pub fn get_title(&self) -> (r: &str)
        ensures
            r@ == "rstrouter"@,
    {
        "rstrouter"
    }
}

} // verus!

verus! {

/// A directory listing handed to the loader: file contents are raw text,
/// entries keep their discovery order.
pub enum FsNode {
    File { name: String, content: String },
    Dir { name: String, entries: Vec<FsNode> },
}

#[verifier::ext_equal]
pub enum FsSpec {
    File { name: Seq<char>, content: Seq<char> },
    Dir { name: Seq<char>, entries: Seq<FsSpec> },
}

pub open spec fn fs_view(n: FsNode) -> FsSpec
    decreases n,
{
    match n {
        FsNode::File { name, content } => FsSpec::File { name: name@, content: content@ },
        FsNode::Dir { name, entries } => FsSpec::Dir {
            name: name@,
            entries: fs_seq_view(entries@),
        },
    }
}

pub open spec fn fs_seq_view(ns: Seq<FsNode>) -> Seq<FsSpec>
    decreases ns,
{
    Seq::new(ns.len(), |i: int| if 0 <= i < ns.len() {
        fs_view(ns[i])
    } else {
        FsSpec::File { name: Seq::empty(), content: Seq::empty() }
    })
}

impl View for FsNode {
    type V = FsSpec;

    open spec fn view(&self) -> FsSpec {
        fs_view(*self)
    }
}

/// Content of the first file named `name` in a listing.
pub open spec fn spec_find_file(entries: Seq<FsSpec>, name: Seq<char>) -> Option<Seq<char>>
    decreases entries.len(),
{
    if entries.len() == 0 {
        None
    } else if entries[0] matches FsSpec::File { name: n, content: c } && n == name {
        Some(entries[0]->File_content)
    } else {
        spec_find_file(entries.drop_first(), name)
    }
}

/// The guard of a directory: the first of `.guard`, `.guard.yml`,
/// `.guard.yaml` that exists, parsed; a file that fails to parse yields no
/// guard.
pub open spec fn spec_guard_of(entries: Seq<FsSpec>) -> Option<YamlSpec> {
    let c = match spec_find_file(entries, ".guard"@) {
        Some(c) => Some(c),
        None => match spec_find_file(entries, ".guard.yml"@) {
            Some(c) => Some(c),
            None => spec_find_file(entries, ".guard.yaml"@),
        },
    };
    match c {
        Some(c) => crate::yaml::yaml_parse_of(c),
        None => None,
    }
}

pub open spec fn spec_stack_after(entries: Seq<FsSpec>, stack: Seq<YamlSpec>) -> Seq<YamlSpec> {
    match spec_guard_of(entries) {
        Some(g) => stack.push(g),
        None => stack,
    }
}

pub open spec fn spec_is_guard_name(name: Seq<char>) -> bool {
    name.len() >= ".guard"@.len() && name.take(".guard"@.len() as int) == ".guard"@
}

/// The endpoints a directory yields outside any method folder: `POST` and
/// `GET` folders switch to endpoint mode, other folders extend the URL.
pub open spec fn spec_collect_endpoints(
    url: Seq<char>,
    entries: Seq<FsSpec>,
    stack: Seq<YamlSpec>,
) -> Seq<EndpointSpec>
    decreases entries, 1int, 0int,
{
    spec_collect_from(url, entries, spec_stack_after(entries, stack), 0)
}

pub open spec fn spec_collect_from(
    url: Seq<char>,
    entries: Seq<FsSpec>,
    stack2: Seq<YamlSpec>,
    i: int,
) -> Seq<EndpointSpec>
    decreases entries, 0int, entries.len() - i,
{
    if i < 0 || i >= entries.len() {
        Seq::empty()
    } else {
        let here = match entries[i] {
            FsSpec::Dir { name, entries: sub } => {
                if name == "POST"@ {
                    spec_endpoint_dir(
                        EndpointMethod::Post,
                        url,
                        crate::text::spec_last_segment(url),
                        sub,
                        stack2,
                    )
                } else if name == "GET"@ {
                    spec_endpoint_dir(
                        EndpointMethod::Get,
                        url,
                        crate::text::spec_last_segment(url),
                        sub,
                        stack2,
                    )
                } else {
                    spec_collect_endpoints(url + "/"@ + name, sub, stack2)
                }
            },
            FsSpec::File { .. } => Seq::empty(),
        };
        here + spec_collect_from(url, entries, stack2, i + 1)
    }
}

/// The endpoints a directory yields inside a method folder: every YAML file
/// that is not a guard becomes one endpoint, subdirectories extend the URL.
pub open spec fn spec_endpoint_dir(
    method: EndpointMethod,
    url: Seq<char>,
    tag: Seq<char>,
    entries: Seq<FsSpec>,
    stack: Seq<YamlSpec>,
) -> Seq<EndpointSpec>
    decreases entries, 1int, 0int,
{
    spec_endpoint_from(method, url, tag, entries, spec_stack_after(entries, stack), 0)
}

pub open spec fn spec_endpoint_record(
    method: EndpointMethod,
    url: Seq<char>,
    tag: Seq<char>,
    name: Seq<char>,
    y: YamlSpec,
    stack2: Seq<YamlSpec>,
) -> EndpointSpec {
    EndpointSpec {
        guards: stack2,
        tag: tag,
        url_path: url + "/"@ + crate::text::spec_stem(name),
        method: method,
        yml_content: y,
        merged_declaration: crate::yaml::yaml_text_of(
            crate::merge::spec_endpoint_declaration(y, stack2),
        ),
    }
}

pub open spec fn spec_endpoint_from(
    method: EndpointMethod,
    url: Seq<char>,
    tag: Seq<char>,
    entries: Seq<FsSpec>,
    stack2: Seq<YamlSpec>,
    i: int,
) -> Seq<EndpointSpec>
    decreases entries, 0int, entries.len() - i,
{
    if i < 0 || i >= entries.len() {
        Seq::empty()
    } else {
        let here = match entries[i] {
            FsSpec::File { name, content } => {
                if spec_is_guard_name(name) {
                    Seq::empty()
                } else {
                    match crate::yaml::yaml_parse_of(content) {
                        Some(y) => seq![spec_endpoint_record(method, url, tag, name, y, stack2)],
                        None => Seq::empty(),
                    }
                }
            },
            FsSpec::Dir { name, entries: sub } => {
                spec_endpoint_dir(method, url + "/"@ + name, tag, sub, stack2)
            },
        };
        here + spec_endpoint_from(method, url, tag, entries, stack2, i + 1)
    }
}

/// Content of the first file named `name`, if any.
fn find_file<'a>(entries: &'a Vec<FsNode>, name: &str) -> (r: Option<&'a String>)
    ensures
        match r {
            Some(c) => spec_find_file(fs_seq_view(entries@), name@) == Some(c@),
            None => spec_find_file(fs_seq_view(entries@), name@) is None,
        },
{
    let ghost ev = fs_seq_view(entries@);
    proof {
        assert(ev.skip(0) =~= ev);
    }
    let n = entries.len();
    let mut i: usize = 0;
    while i < n
        invariant
            n == entries.len(),
            ev == fs_seq_view(entries@),
            0 <= i <= n,
            spec_find_file(ev, name@) == spec_find_file(ev.skip(i as int), name@),
        decreases n - i,
    {
        proof {
            assert(ev.skip(i as int)[0] == ev[i as int]);
            assert(ev.skip(i as int).drop_first() =~= ev.skip(i as int + 1));
            assert(ev[i as int] == entries@[i as int]@);
        }
        match &entries[i] {
            FsNode::File { name: fname, content } => {
                if crate::text::str_eq(fname.as_str(), name) {
                    return Some(content);
                }
            },
            _ => {},
        }
        i = i + 1;
    }
    proof {
        assert(ev.skip(n as int).len() == 0);
    }
    None
}

impl Guard {
    /// The guard of a directory listing, when one of the guard files is
    /// there and parses.
    pub fn parse_guard_from_entries(entries: &Vec<FsNode>) -> (r: Option<Guard>)
        ensures
            match r {
                Some(g) => spec_guard_of(fs_seq_view(entries@)) == Some(g@),
                None => spec_guard_of(fs_seq_view(entries@)) is None,
            },
    {
        let content = match find_file(entries, ".guard") {
            Some(c) => Some(c),
            None => match find_file(entries, ".guard.yml") {
                Some(c) => Some(c),
                None => find_file(entries, ".guard.yaml"),
            },
        };
        match content {
            Some(c) => match crate::yaml::parse_yaml(c.as_str()) {
                Some(y) => Some(Guard { yml_content: y }),
                None => None,
            },
            None => None,
        }
    }
}

/// Deep copies of a guard stack.
fn clone_guards(gs: &Vec<Guard>) -> (r: Vec<Guard>)
    ensures
        guards_view(r@) == guards_view(gs@),
{
    let n = gs.len();
    let mut out: Vec<Guard> = Vec::new();
    let mut i: usize = 0;
    while i < n
        invariant
            n == gs.len(),
            0 <= i <= n,
            out@.len() == i,
            forall|k: int| 0 <= k < i ==> #[trigger] guards_view(out@)[k] == guards_view(gs@)[k],
        decreases n - i,
    {
        let ghost prev = out@;
        out.push(Guard { yml_content: gs[i].yml_content.deep_copy() });
        proof {
            assert forall|k: int| 0 <= k < i + 1 implies #[trigger] guards_view(out@)[k]
                == guards_view(gs@)[k] by {
                if k < i {
                    assert(guards_view(prev)[k] == guards_view(gs@)[k]);
                    assert(out@[k] == prev[k]);
                }
            }
        }
        i = i + 1;
    }
    proof {
        assert(guards_view(out@) =~= guards_view(gs@));
    }
    out
}

/// The stack for a subtree: the directory's own guard pushed onto the
/// inherited stack, both deep-copied.
fn extend_stack(entries: &Vec<FsNode>, stack: &Vec<Guard>) -> (r: Vec<Guard>)
    ensures
        guards_view(r@) == crate::parser::spec_stack_after(
            fs_seq_view(entries@),
            guards_view(stack@),
        ),
{
    let mut out = clone_guards(stack);
    match Guard::parse_guard_from_entries(entries) {
        Some(g) => {
            let ghost prev = out@;
            out.push(g);
            proof {
                assert(guards_view(out@) =~= guards_view(prev).push(g@));
            }
        },
        None => {},
    }
    out
}

impl EndpointsCollection {
    /// Loads every endpoint of a DSL directory listing, in discovery order.
    pub fn parse_from_tree(entries: &Vec<FsNode>) -> (r: Self)
        ensures
            endpoints_view(r.endpoints@) == spec_collect_endpoints(
                Seq::empty(),
                fs_seq_view(entries@),
                Seq::empty(),
            ),
    {
        let mut acc: Vec<Endpoint> = Vec::new();
        let stack: Vec<Guard> = Vec::new();
        proof {
            reveal_strlit("");
            assert(""@ =~= Seq::<char>::empty());
            assert(guards_view(stack@) =~= Seq::<YamlSpec>::empty());
            assert(endpoints_view(acc@) =~= Seq::<EndpointSpec>::empty());
        }
        Self::parse_from_tree_rec("", entries, &stack, &mut acc);
        proof {
            assert(endpoints_view(acc@) =~= Seq::<EndpointSpec>::empty() + endpoints_view(acc@));
        }
        Self { endpoints: acc }
    }

    fn parse_from_tree_rec(
        current_url: &str,
        entries: &Vec<FsNode>,
        in_guards: &Vec<Guard>,
        acc: &mut Vec<Endpoint>,
    )
        ensures
            endpoints_view(final (acc)@) == endpoints_view(old(acc)@) + spec_collect_endpoints(
                current_url@,
                fs_seq_view(entries@),
                guards_view(in_guards@),
            ),
        decreases entries, 1int, 0int,
    {
        let stack2 = extend_stack(entries, in_guards);
        let ghost ev = fs_seq_view(entries@);
        let ghost sv2 = guards_view(stack2@);
        let ghost base = endpoints_view(old(acc)@);
        let n = entries.len();
        let mut i: usize = 0;
        proof {
            assert(endpoints_view(acc@) + spec_collect_from(current_url@, ev, sv2, 0) =~= base
                + spec_collect_endpoints(current_url@, ev, guards_view(in_guards@)));
        }
        while i < n
            invariant
                n == entries.len(),
                ev == fs_seq_view(entries@),
                sv2 == guards_view(stack2@),
                0 <= i <= n,
                endpoints_view(acc@) + spec_collect_from(current_url@, ev, sv2, i as int) == base
                    + spec_collect_endpoints(
                    current_url@,
                    ev,
                    guards_view(in_guards@),
                ),
            decreases entries, 0int, n - i,
        {
            proof {
                assert(ev[i as int] == entries@[i as int]@);
                assert(decreases_to!(entries@ => entries@[i as int]));
            }
            let ghost before = endpoints_view(acc@);
            match &entries[i] {
                FsNode::Dir { name, entries: sub } => {
                    proof {
                        assert(decreases_to!(entries@[i as int] => entries@[i as int]->Dir_entries));
                        assert(decreases_to!(entries@[i as int]->Dir_entries => entries@[i as int]->Dir_entries@));
                        assert(sub@ == entries@[i as int]->Dir_entries@);
                    }
                    if crate::text::str_eq(name.as_str(), "POST") {
                        let tag = crate::text::last_segment(current_url);
                        Endpoint::parse_from_tree_rec(
                            EndpointMethod::Post,
                            current_url,
                            tag.as_str(),
                            sub,
                            &stack2,
                            acc,
                        );
                    } else if crate::text::str_eq(name.as_str(), "GET") {
                        let tag = crate::text::last_segment(current_url);
                        Endpoint::parse_from_tree_rec(
                            EndpointMethod::Get,
                            current_url,
                            tag.as_str(),
                            sub,
                            &stack2,
                            acc,
                        );
                    } else {
                        let new_url = crate::text::join_url(current_url, name.as_str());
                        Self::parse_from_tree_rec(new_url.as_str(), sub, &stack2, acc);
                    }
                },
                FsNode::File { .. } => {},
            }
            proof {
                assert(endpoints_view(acc@) + spec_collect_from(current_url@, ev, sv2, i as int + 1)
                    =~= before + spec_collect_from(current_url@, ev, sv2, i as int));
            }
            i = i + 1;
        }
        proof {
            assert(spec_collect_from(current_url@, ev, sv2, n as int).len() == 0);
            assert(endpoints_view(acc@) =~= endpoints_view(acc@) + spec_collect_from(
                current_url@,
                ev,
                sv2,
                n as int,
            ));
        }
    }
}

impl Endpoint {
    fn parse_from_tree_rec(
        method: EndpointMethod,
        current_url: &str,
        tag: &str,
        entries: &Vec<FsNode>,
        in_guards: &Vec<Guard>,
        acc: &mut Vec<Endpoint>,
    )
        ensures
            endpoints_view(final (acc)@) == endpoints_view(old(acc)@) + spec_endpoint_dir(
                method,
                current_url@,
                tag@,
                fs_seq_view(entries@),
                guards_view(in_guards@),
            ),
        decreases entries, 1int, 0int,
    {
        let stack2 = extend_stack(entries, in_guards);
        let ghost ev = fs_seq_view(entries@);
        let ghost sv2 = guards_view(stack2@);
        let ghost base = endpoints_view(old(acc)@);
        let n = entries.len();
        let mut i: usize = 0;
        proof {
            assert(endpoints_view(acc@) + spec_endpoint_from(method, current_url@, tag@, ev, sv2, 0)
                =~= base + spec_endpoint_dir(
                method,
                current_url@,
                tag@,
                ev,
                guards_view(in_guards@),
            ));
        }
        while i < n
            invariant
                n == entries.len(),
                ev == fs_seq_view(entries@),
                sv2 == guards_view(stack2@),
                0 <= i <= n,
                endpoints_view(acc@) + spec_endpoint_from(
                    method,
                    current_url@,
                    tag@,
                    ev,
                    sv2,
                    i as int,
                ) == base + spec_endpoint_dir(
                    method,
                    current_url@,
                    tag@,
                    ev,
                    guards_view(in_guards@),
                ),
            decreases entries, 0int, n - i,
        {
            proof {
                assert(ev[i as int] == entries@[i as int]@);
                assert(decreases_to!(entries@ => entries@[i as int]));
            }
            let ghost before = endpoints_view(acc@);
            match &entries[i] {
                FsNode::File { name, content } => {
                    if !crate::text::str_starts_with(name.as_str(), ".guard") {
                        match crate::yaml::parse_yaml(content.as_str()) {
                            Some(y) => {
                                let stem = crate::text::file_stem(name.as_str());
                                let mut e = Endpoint {
                                    guards: clone_guards(&stack2),
                                    tag: tag.to_owned(),
                                    url_path: crate::text::join_url(current_url, stem.as_str()),
                                    method: method,
                                    yml_content: y,
                                    merged_declaration: String::new(),
                                };
                                e.merge_declaration();
                                let ghost prev = acc@;
                                acc.push(e);
                                proof {
                                    assert(endpoints_view(acc@) =~= endpoints_view(prev).push(
                                        acc@[prev.len() as int]@,
                                    ));
                                    assert(acc@[prev.len() as int]@ =~~= spec_endpoint_record(
                                        method,
                                        current_url@,
                                        tag@,
                                        name@,
                                        y@,
                                        sv2,
                                    ));
                                }
                            },
                            None => {},
                        }
                    }
                },
                FsNode::Dir { name, entries: sub } => {
                    proof {
                        assert(decreases_to!(entries@[i as int] => entries@[i as int]->Dir_entries));
                        assert(decreases_to!(entries@[i as int]->Dir_entries => entries@[i as int]->Dir_entries@));
                        assert(sub@ == entries@[i as int]->Dir_entries@);
                    }
                    let new_url = crate::text::join_url(current_url, name.as_str());
                    Self::parse_from_tree_rec(method, new_url.as_str(), tag, sub, &stack2, acc);
                },
            }
            proof {
                assert(endpoints_view(acc@) + spec_endpoint_from(
                    method,
                    current_url@,
                    tag@,
                    ev,
                    sv2,
                    i as int + 1,
                ) =~= before + spec_endpoint_from(method, current_url@, tag@, ev, sv2, i as int));
            }
            i = i + 1;
        }
        proof {
            assert(spec_endpoint_from(method, current_url@, tag@, ev, sv2, n as int).len() == 0);
            assert(endpoints_view(acc@) =~= endpoints_view(acc@) + spec_endpoint_from(
                method,
                current_url@,
                tag@,
                ev,
                sv2,
                n as int,
            ));
        }
    }
}

} // verus!

verus! {

/// A well-formed entry name: non-empty and without `/`.
pub open spec fn spec_name_ok(name: Seq<char>) -> bool {
    name.len() > 0 && !crate::text::spec_contains_char(name, '/')
}

pub open spec fn spec_tree_ok(n: FsSpec) -> bool
    decreases n,
{
    match n {
        FsSpec::File { name, .. } => spec_name_ok(name),
        FsSpec::Dir { name, entries } => spec_name_ok(name) && spec_entries_ok(entries),
    }
}

pub open spec fn spec_entries_ok(es: Seq<FsSpec>) -> bool
    decreases es,
{
    if es.len() == 0 {
        true
    } else {
        spec_tree_ok(es[0]) && spec_entries_ok(es.drop_first())
    }
}

proof fn lemma_entries_ok_index(es: Seq<FsSpec>, i: int)
    requires
        spec_entries_ok(es),
        0 <= i < es.len(),
    ensures
        spec_tree_ok(es[i]),
    decreases es.len(),
{
    if i > 0 {
        lemma_entries_ok_index(es.drop_first(), i - 1);
        assert(es.drop_first()[i - 1] == es[i]);
    }
}

/// A well-formed URL path: starts with `/`, no empty segment.
pub open spec fn spec_path_ok(p: Seq<char>) -> bool {
    &&& p.len() >= 2
    &&& p[0] == '/'
    &&& p.last() != '/'
    &&& forall|i: int| 0 <= i < p.len() - 1 ==> !(#[trigger] p[i] == '/' && p[i + 1] == '/')
}

/// The accumulated prefix is empty at the root and a well-formed path below.
pub open spec fn spec_prefix_ok(u: Seq<char>) -> bool {
    u.len() == 0 || spec_path_ok(u)
}

proof fn lemma_join_ok(u: Seq<char>, n: Seq<char>)
    requires
        spec_prefix_ok(u),
        spec_name_ok(n),
    ensures
        spec_path_ok(u + "/"@ + n),
        spec_prefix_ok(u + "/"@ + n),
{
    reveal_strlit("/");
    let p = u + "/"@ + n;
    assert(p.len() == u.len() + 1 + n.len());
    assert(p[u.len() as int] == '/');
    assert forall|k: int| 0 <= k < n.len() implies p[u.len() + 1 + k] == n[k] by {}
    assert(p.last() == n.last());
    assert(n.last() != '/') by {
        if n.last() == '/' {
            assert(crate::text::spec_contains_char(n, '/'));
        }
    }
    assert(p[0] == '/') by {
        if u.len() > 0 {
        }
    }
    assert forall|i: int| 0 <= i < p.len() - 1 implies !(#[trigger] p[i] == '/' && p[i + 1]
        == '/') by {
        if i < u.len() - 1 {
            assert(p[i] == u[i] && p[i + 1] == u[i + 1]);
        } else if i == u.len() - 1 {
            assert(u.len() > 0);
            assert(p[i] == u[u.len() - 1]);
            assert(u.last() != '/');
        } else if i == u.len() {
            assert(p[i + 1] == n[0]);
            if n[0] == '/' {
                assert(crate::text::spec_contains_char(n, '/'));
            }
        } else {
            assert(p[i] == n[i - u.len() - 1] && p[i + 1] == n[i - u.len()]);
            if p[i] == '/' {
                assert(crate::text::spec_contains_char(n, '/'));
            }
        }
    }
}

proof fn lemma_stem_ok(n: Seq<char>)
    requires
        spec_name_ok(n),
    ensures
        spec_name_ok(crate::text::spec_stem(n)),
{
    let s = crate::text::spec_stem(n);
    if crate::text::spec_contains_char(n, '.') && crate::text::spec_rfind_char(n, '.') >= 1 {
        crate::text::lemma_rfind_char(n, '.');
        assert(s.len() >= 1);
        if crate::text::spec_contains_char(s, '/') {
            let i = choose|i: int| 0 <= i < s.len() && s[i] == '/';
            assert(n[i] == '/');
            assert(crate::text::spec_contains_char(n, '/'));
        }
    }
}

/// Every loaded endpoint's URL path starts with `/` and holds no empty
/// segment, provided the listing's names are non-empty and without `/`.
pub proof fn lemma_endpoint_paths_well_formed(entries: Seq<FsSpec>)
    requires
        spec_entries_ok(entries),
    ensures
        forall|k: int|
            0 <= k < spec_collect_endpoints(Seq::empty(), entries, Seq::empty()).len()
                ==> spec_path_ok(
                #[trigger] spec_collect_endpoints(Seq::empty(), entries, Seq::empty())[k].url_path,
            ),
{
    lemma_collect_paths(Seq::empty(), entries, Seq::empty());
}

proof fn lemma_collect_paths(url: Seq<char>, entries: Seq<FsSpec>, stack: Seq<YamlSpec>)
    requires
        spec_entries_ok(entries),
        spec_prefix_ok(url),
    ensures
        forall|k: int|
            0 <= k < spec_collect_endpoints(url, entries, stack).len() ==> spec_path_ok(
                #[trigger] spec_collect_endpoints(url, entries, stack)[k].url_path,
            ),
    decreases entries, 1int, 0int,
{
    lemma_collect_from_paths(url, entries, spec_stack_after(entries, stack), 0);
}

proof fn lemma_collect_from_paths(
    url: Seq<char>,
    entries: Seq<FsSpec>,
    stack2: Seq<YamlSpec>,
    i: int,
)
    requires
        spec_entries_ok(entries),
        spec_prefix_ok(url),
    ensures
        forall|k: int|
            0 <= k < spec_collect_from(url, entries, stack2, i).len() ==> spec_path_ok(
                #[trigger] spec_collect_from(url, entries, stack2, i)[k].url_path,
            ),
    decreases entries, 0int, entries.len() - i,
{
    if 0 <= i < entries.len() {
        lemma_entries_ok_index(entries, i);
        lemma_collect_from_paths(url, entries, stack2, i + 1);
        let here = match entries[i] {
            FsSpec::Dir { name, entries: sub } => {
                if name == "POST"@ {
                    lemma_endpoint_dir_paths(
                        EndpointMethod::Post,
                        url,
                        crate::text::spec_last_segment(url),
                        sub,
                        stack2,
                    );
                } else if name == "GET"@ {
                    lemma_endpoint_dir_paths(
                        EndpointMethod::Get,
                        url,
                        crate::text::spec_last_segment(url),
                        sub,
                        stack2,
                    );
                } else {
                    lemma_join_ok(url, name);
                    lemma_collect_paths(url + "/"@ + name, sub, stack2);
                }
            },
            FsSpec::File { .. } => {},
        };
    }
}

proof fn lemma_endpoint_dir_paths(
    method: EndpointMethod,
    url: Seq<char>,
    tag: Seq<char>,
    entries: Seq<FsSpec>,
    stack: Seq<YamlSpec>,
)
    requires
        spec_entries_ok(entries),
        spec_prefix_ok(url),
    ensures
        forall|k: int|
            0 <= k < spec_endpoint_dir(method, url, tag, entries, stack).len() ==> spec_path_ok(
                #[trigger] spec_endpoint_dir(method, url, tag, entries, stack)[k].url_path,
            ),
    decreases entries, 1int, 0int,
{
    lemma_endpoint_from_paths(method, url, tag, entries, spec_stack_after(entries, stack), 0);
}

proof fn lemma_endpoint_from_paths(
    method: EndpointMethod,
    url: Seq<char>,
    tag: Seq<char>,
    entries: Seq<FsSpec>,
    stack2: Seq<YamlSpec>,
    i: int,
)
    requires
        spec_entries_ok(entries),
        spec_prefix_ok(url),
    ensures
        forall|k: int|
            0 <= k < spec_endpoint_from(method, url, tag, entries, stack2, i).len()
                ==> spec_path_ok(
                #[trigger] spec_endpoint_from(method, url, tag, entries, stack2, i)[k].url_path,
            ),
    decreases entries, 0int, entries.len() - i,
{
    if 0 <= i < entries.len() {
        lemma_entries_ok_index(entries, i);
        lemma_endpoint_from_paths(method, url, tag, entries, stack2, i + 1);
        match entries[i] {
            FsSpec::File { name, content } => {
                lemma_stem_ok(name);
                lemma_join_ok(url, crate::text::spec_stem(name));
            },
            FsSpec::Dir { name, entries: sub } => {
                lemma_join_ok(url, name);
                lemma_endpoint_dir_paths(method, url + "/"@ + name, tag, sub, stack2);
            },
        }
    }
}

/// Guard counts expected along each path: a directory adds one for its own
/// parsed guard file; each emitted endpoint records the count at its file.
pub open spec fn spec_count_dir_step(entries: Seq<FsSpec>, c: nat) -> nat {
    if spec_guard_of(entries) is Some {
        c + 1
    } else {
        c
    }
}

pub open spec fn spec_count_collect(entries: Seq<FsSpec>, c: nat) -> Seq<nat>
    decreases entries, 1int, 0int,
{
    spec_count_collect_from(entries, spec_count_dir_step(entries, c), 0)
}

pub open spec fn spec_count_collect_from(entries: Seq<FsSpec>, c2: nat, i: int) -> Seq<nat>
    decreases entries, 0int, entries.len() - i,
{
    if i < 0 || i >= entries.len() {
        Seq::empty()
    } else {
        let here = match entries[i] {
            FsSpec::Dir { name, entries: sub } => {
                if name == "POST"@ || name == "GET"@ {
                    spec_count_endpoint_dir(sub, c2)
                } else {
                    spec_count_collect(sub, c2)
                }
            },
            FsSpec::File { .. } => Seq::empty(),
        };
        here + spec_count_collect_from(entries, c2, i + 1)
    }
}

pub open spec fn spec_count_endpoint_dir(entries: Seq<FsSpec>, c: nat) -> Seq<nat>
    decreases entries, 1int, 0int,
{
    spec_count_endpoint_from(entries, spec_count_dir_step(entries, c), 0)
}

pub open spec fn spec_count_endpoint_from(entries: Seq<FsSpec>, c2: nat, i: int) -> Seq<nat>
    decreases entries, 0int, entries.len() - i,
{
    if i < 0 || i >= entries.len() {
        Seq::empty()
    } else {
        let here = match entries[i] {
            FsSpec::File { name, content } => {
                if spec_is_guard_name(name) {
                    Seq::empty()
                } else {
                    match crate::yaml::yaml_parse_of(content) {
                        Some(y) => seq![c2],
                        None => Seq::empty(),
                    }
                }
            },
            FsSpec::Dir { name, entries: sub } => spec_count_endpoint_dir(sub, c2),
        };
        here + spec_count_endpoint_from(entries, c2, i + 1)
    }
}

/// Every loaded endpoint carries exactly as many guards as there are parsed
/// guard files on the directory path from the DSL root down to its file.
pub proof fn lemma_endpoint_guard_counts(entries: Seq<FsSpec>)
    ensures
        spec_collect_endpoints(Seq::empty(), entries, Seq::empty()).len() == spec_count_collect(
            entries,
            0,
        ).len(),
        forall|k: int|
            0 <= k < spec_collect_endpoints(Seq::empty(), entries, Seq::empty()).len()
                ==> #[trigger] spec_collect_endpoints(
                Seq::empty(),
                entries,
                Seq::empty(),
            )[k].guards.len() == spec_count_collect(entries, 0)[k],
{
    lemma_collect_counts(Seq::empty(), entries, Seq::empty());
}

proof fn lemma_collect_counts(url: Seq<char>, entries: Seq<FsSpec>, stack: Seq<YamlSpec>)
    ensures
        spec_collect_endpoints(url, entries, stack).len() == spec_count_collect(
            entries,
            stack.len(),
        ).len(),
        forall|k: int|
            0 <= k < spec_collect_endpoints(url, entries, stack).len()
                ==> #[trigger] spec_collect_endpoints(url, entries, stack)[k].guards.len()
                == spec_count_collect(entries, stack.len())[k],
    decreases entries, 1int, 0int,
{
    let stack2 = spec_stack_after(entries, stack);
    assert(stack2.len() == spec_count_dir_step(entries, stack.len()));
    lemma_collect_from_counts(url, entries, stack2, 0);
}

proof fn lemma_collect_from_counts(
    url: Seq<char>,
    entries: Seq<FsSpec>,
    stack2: Seq<YamlSpec>,
    i: int,
)
    ensures
        spec_collect_from(url, entries, stack2, i).len() == spec_count_collect_from(
            entries,
            stack2.len(),
            i,
        ).len(),
        forall|k: int|
            0 <= k < spec_collect_from(url, entries, stack2, i).len()
                ==> #[trigger] spec_collect_from(url, entries, stack2, i)[k].guards.len()
                == spec_count_collect_from(entries, stack2.len(), i)[k],
    decreases entries, 0int, entries.len() - i,
{
    if 0 <= i < entries.len() {
        lemma_collect_from_counts(url, entries, stack2, i + 1);
        match entries[i] {
            FsSpec::Dir { name, entries: sub } => {
                if name == "POST"@ {
                    lemma_endpoint_dir_counts(
                        EndpointMethod::Post,
                        url,
                        crate::text::spec_last_segment(url),
                        sub,
                        stack2,
                    );
                } else if name == "GET"@ {
                    lemma_endpoint_dir_counts(
                        EndpointMethod::Get,
                        url,
                        crate::text::spec_last_segment(url),
                        sub,
                        stack2,
                    );
                } else {
                    lemma_collect_counts(url + "/"@ + name, sub, stack2);
                }
            },
            FsSpec::File { .. } => {},
        }
    }
}

proof fn lemma_endpoint_dir_counts(
    method: EndpointMethod,
    url: Seq<char>,
    tag: Seq<char>,
    entries: Seq<FsSpec>,
    stack: Seq<YamlSpec>,
)
    ensures
        spec_endpoint_dir(method, url, tag, entries, stack).len() == spec_count_endpoint_dir(
            entries,
            stack.len(),
        ).len(),
        forall|k: int|
            0 <= k < spec_endpoint_dir(method, url, tag, entries, stack).len()
                ==> #[trigger] spec_endpoint_dir(method, url, tag, entries, stack)[k].guards.len()
                == spec_count_endpoint_dir(entries, stack.len())[k],
    decreases entries, 1int, 0int,
{
    let stack2 = spec_stack_after(entries, stack);
    assert(stack2.len() == spec_count_dir_step(entries, stack.len()));
    lemma_endpoint_from_counts(method, url, tag, entries, stack2, 0);
}

proof fn lemma_endpoint_from_counts(
    method: EndpointMethod,
    url: Seq<char>,
    tag: Seq<char>,
    entries: Seq<FsSpec>,
    stack2: Seq<YamlSpec>,
    i: int,
)
    ensures
        spec_endpoint_from(method, url, tag, entries, stack2, i).len()
            == spec_count_endpoint_from(entries, stack2.len(), i).len(),
        forall|k: int|
            0 <= k < spec_endpoint_from(method, url, tag, entries, stack2, i).len()
                ==> #[trigger] spec_endpoint_from(
                method,
                url,
                tag,
                entries,
                stack2,
                i,
            )[k].guards.len() == spec_count_endpoint_from(entries, stack2.len(), i)[k],
    decreases entries, 0int, entries.len() - i,
{
    if 0 <= i < entries.len() {
        lemma_endpoint_from_counts(method, url, tag, entries, stack2, i + 1);
        match entries[i] {
            FsSpec::File { name, content } => {},
            FsSpec::Dir { name, entries: sub } => {
                lemma_endpoint_dir_counts(method, url + "/"@ + name, tag, sub, stack2);
            },
        }
    }
}

} // verus!
