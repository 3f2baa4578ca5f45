//! The scope tree backing cross-scope references.  Nodes live in an arena
//! and refer to their parent and children by index; every node is created
//! after its parent, so parent links always point backwards.  `lookup`
//! implements the reference-resolution protocol: `!super` climbs to the
//! parent, other segments consult the local scope first and then descend
//! into a child of that name.

use crate::se_parser::{Expr, ExprV};
use vstd::prelude::*;

verus! {

/// A value stored in a node's local scope: a wrapped expression.
#[derive(Debug, PartialEq)]
pub enum ContextValue {
    Expr(Expr),
}

impl View for ContextValue {
    type V = ExprV;

    open spec fn view(&self) -> ExprV {
        match self {
            ContextValue::Expr(e) => e@,
        }
    }
}

impl ContextValue {
    /// An exact copy, by value.
    pub fn duplicate(&self) -> (r: ContextValue)
        ensures
            r@ == self@,
    {
        match self {
            ContextValue::Expr(e) => ContextValue::Expr(e.duplicate()),
        }
    }
}

/// How a lookup can fail.
#[derive(Debug, PartialEq)]
pub enum ContextLookupError {
    NoSuchMember { member: String, context_path: Vec<String> },
    EmptyKey { context_path: Vec<String> },
    LookupOnValue { member: String, value: ContextValue },
}

/// Mathematical counterpart of [`ContextLookupError`].
pub enum ContextLookupErrorV {
    NoSuchMember { member: Seq<char>, context_path: Seq<Seq<char>> },
    EmptyKey { context_path: Seq<Seq<char>> },
    LookupOnValue { member: Seq<char>, value: ExprV },
}

impl View for ContextLookupError {
    type V = ContextLookupErrorV;

    open spec fn view(&self) -> ContextLookupErrorV {
        match self {
            ContextLookupError::NoSuchMember { member, context_path } => ContextLookupErrorV::NoSuchMember {
                member: member@,
                context_path: context_path.deep_view(),
            },
            ContextLookupError::EmptyKey { context_path } => ContextLookupErrorV::EmptyKey {
                context_path: context_path.deep_view(),
            },
            ContextLookupError::LookupOnValue { member, value } => ContextLookupErrorV::LookupOnValue {
                member: member@,
                value: value@,
            },
        }
    }
}

/// One scope node, as the specifications see it.
pub struct CtxNodeV {
    pub name: Seq<char>,
    pub parent: Option<usize>,
    pub children: Seq<(Seq<char>, usize)>,
    pub scope: Seq<(Seq<char>, ExprV)>,
}

#[derive(Debug, PartialEq)]
struct ContextNode {
    name: String,
    parent: Option<usize>,
    children: Vec<(String, usize)>,
    scope: Vec<(String, ContextValue)>,
}

impl View for ContextNode {
    type V = CtxNodeV;

    closed spec fn view(&self) -> CtxNodeV {
        CtxNodeV {
            name: self.name@,
            parent: self.parent,
            children: Seq::new(
                self.children@.len(),
                |i: int| (self.children@[i].0@, self.children@[i].1),
            ),
            scope: Seq::new(self.scope@.len(), |i: int| (self.scope@[i].0@, self.scope@[i].1@)),
        }
    }
}

/// Parent links point backwards and child links stay inside the arena.
pub open spec fn node_wf(nodes: Seq<CtxNodeV>, i: int) -> bool {
    &&& (nodes[i].parent matches Some(p) ==> (p as int) < i)
    &&& (forall|j: int|
        0 <= j < nodes[i].children.len() ==> ((#[trigger] nodes[i].children[j]).1 as int)
            < nodes.len())
}

/// Well-formedness of the whole arena.
pub open spec fn ctx_wf(nodes: Seq<CtxNodeV>) -> bool {
    forall|i: int| 0 <= i < nodes.len() ==> #[trigger] node_wf(nodes, i)
}

/// First-match association lookup over an ordered entry list.
pub open spec fn assoc_find<T>(es: Seq<(Seq<char>, T)>, k: Seq<char>) -> Option<T>
    decreases es.len(),
{
    if es.len() == 0 {
        None
    } else if es[0].0 == k {
        Some(es[0].1)
    } else {
        assoc_find(es.drop_first(), k)
    }
}

/// The dotted name path from the root down to node `n`.
pub open spec fn spec_path(nodes: Seq<CtxNodeV>, n: int) -> Seq<Seq<char>>
    decreases n,
    when 0 <= n < nodes.len() && ctx_wf(nodes)
{
    match nodes[n].parent {
        None => seq![nodes[n].name],
        Some(p) => {
            proof {
                assert(node_wf(nodes, n));
            }
            spec_path(nodes, p as int).push(nodes[n].name)
        },
    }
}

/// The lookup protocol.  An empty key is an error; `!super` climbs to the
/// parent; otherwise a key found in the local scope ends the walk (with an
/// error when segments remain, since scalars have no members); otherwise a
/// child of that name continues the walk; otherwise the member is missing.
pub open spec fn spec_lookup(nodes: Seq<CtxNodeV>, n: int, key: Seq<Seq<char>>) -> Result<
    ExprV,
    ContextLookupErrorV,
>
    decreases key.len(),
    when 0 <= n < nodes.len() && ctx_wf(nodes)
{
    if key.len() == 0 {
        Err(ContextLookupErrorV::EmptyKey { context_path: spec_path(nodes, n) })
    } else if key[0] == "!super"@ {
        match nodes[n].parent {
            None => Err(
                ContextLookupErrorV::NoSuchMember {
                    member: "!super"@,
                    context_path: spec_path(nodes, n),
                },
            ),
            Some(p) => {
                proof {
                    assert(node_wf(nodes, n));
                }
                spec_lookup(nodes, p as int, key.drop_first())
            },
        }
    } else {
        match assoc_find(nodes[n].scope, key[0]) {
            Some(v) => if key.len() > 1 {
                Err(ContextLookupErrorV::LookupOnValue { member: key[0], value: v })
            } else {
                Ok(v)
            },
            None => match assoc_find(nodes[n].children, key[0]) {
                Some(c) => {
                    proof {
                        assert(node_wf(nodes, n));
                        lemma_assoc_find_child(nodes[n].children, key[0], nodes.len() as int);
                    }
                    spec_lookup(nodes, c as int, key.drop_first())
                },
                None => Err(
                    ContextLookupErrorV::NoSuchMember {
                        member: key[0],
                        context_path: spec_path(nodes, n),
                    },
                ),
            },
        }
    }
}

/// A child index found in a well-formed children list is a valid arena
/// index.
pub proof fn lemma_assoc_find_child(es: Seq<(Seq<char>, usize)>, k: Seq<char>, bound: int)
    requires
        forall|j: int| 0 <= j < es.len() ==> ((#[trigger] es[j]).1 as int) < bound,
    ensures
        assoc_find(es, k) matches Some(c) ==> (c as int) < bound,
    decreases es.len(),
{
    if es.len() > 0 && es[0].0 != k {
        lemma_assoc_find_child(es.drop_first(), k, bound);
    }
}

/// The scope tree: an arena of nodes.  Node 0 is the root.
#[derive(Debug, PartialEq)]
pub struct Context {
    nodes: Vec<ContextNode>,
}

impl View for Context {
    type V = Seq<CtxNodeV>;

    closed spec fn view(&self) -> Seq<CtxNodeV> {
        Seq::new(self.nodes@.len(), |i: int| self.nodes@[i]@)
    }
}

/// The view of a lookup result.
pub open spec fn lookup_result_view(r: Result<ContextValue, ContextLookupError>) -> Result<
    ExprV,
    ContextLookupErrorV,
> {
    match r {
        Ok(v) => Ok(v@),
        Err(e) => Err(e@),
    }
}

/// The key segments of a lookup, as character sequences.
pub open spec fn key_view(key: Seq<String>) -> Seq<Seq<char>> {
    key.map_values(|s: String| s@)
}

impl Context {
    /// A fresh tree holding only a root node of the given name.
    pub fn new(name: &str) -> (r: Context)
        ensures
            ctx_wf(r@),
            r@.len() == 1,
            r@[0].name == name@,
            r@[0].parent is None,
            r@[0].children.len() == 0,
            r@[0].scope.len() == 0,
    {
        let node = ContextNode {
            name: name.to_owned(),
            parent: None,
            children: Vec::new(),
            scope: Vec::new(),
        };
        let mut nodes = Vec::new();
        nodes.push(node);
        let r = Context { nodes };
        proof {
            assert(r@[0].children =~= Seq::<(Seq<char>, usize)>::empty());
            assert(r@[0].scope =~= Seq::<(Seq<char>, ExprV)>::empty());
            assert(ctx_wf(r@)) by {
                assert forall|i: int| 0 <= i < r@.len() implies #[trigger] node_wf(r@, i) by {
                    assert(r@[0].parent is None);
                }
            }
        }
        r
    }

    /// How many nodes the tree holds.
    pub fn len(&self) -> (r: usize)
        ensures
            r == self@.len(),
    {
        self.nodes.len()
    }

    /// Appends a fresh child node under `parent` and records it in the
    /// parent's children mapping; returns the new node's index.
    pub fn add_child(&mut self, parent: usize, name: &str) -> (r: usize)
        requires
            ctx_wf(old(self)@),
            parent < old(self)@.len(),
        ensures
            ctx_wf(final(self)@),
            r == old(self)@.len(),
            final(self)@.len() == old(self)@.len() + 1,
            final(self)@[r as int].name == name@,
            final(self)@[r as int].parent == Some(parent),
            final(self)@[r as int].children.len() == 0,
            final(self)@[r as int].scope.len() == 0,
            final(self)@[parent as int].children == old(self)@[parent as int].children.push(
                (name@, r),
            ),
            final(self)@[parent as int].name == old(self)@[parent as int].name,
            final(self)@[parent as int].parent == old(self)@[parent as int].parent,
            final(self)@[parent as int].scope == old(self)@[parent as int].scope,
            forall|i: int|
                0 <= i < old(self)@.len() && i != parent ==> final(self)@[i] == old(self)@[i],
    {
        let idx = self.nodes.len();
        let node = ContextNode {
            name: name.to_owned(),
            parent: Some(parent),
            children: Vec::new(),
            scope: Vec::new(),
        };
        self.nodes.push(node);
        self.nodes[parent].children.push((name.to_owned(), idx));
        proof {
            assert(self@[idx as int].children =~= Seq::<(Seq<char>, usize)>::empty());
            assert(self@[idx as int].scope =~= Seq::<(Seq<char>, ExprV)>::empty());
            assert(self@[parent as int].children =~= old(self)@[parent as int].children.push(
                (name@, idx),
            ));
            assert forall|i: int| 0 <= i < self@.len() implies #[trigger] node_wf(self@, i) by {
                if i < old(self)@.len() {
                    assert(node_wf(old(self)@, i));
                    if i == parent {
                        assert forall|j: int| 0 <= j < self@[i].children.len() implies ((
                        #[trigger] self@[i].children[j]).1 as int) < self@.len() by {
                            if j < old(self)@[i].children.len() {
                                assert((old(self)@[i].children[j].1 as int) < old(self)@.len());
                            }
                        }
                    } else {
                        assert(self@[i] == old(self)@[i]);
                        assert forall|j: int| 0 <= j < self@[i].children.len() implies ((
                        #[trigger] self@[i].children[j]).1 as int) < self@.len() by {
                            assert((old(self)@[i].children[j].1 as int) < old(self)@.len());
                        }
                    }
                }
            }
        }
        idx
    }

    /// Binds `key` to `val` in the local scope of node `n`; the new binding
    /// shadows any earlier binding of the same key.
    pub fn add_value(&mut self, n: usize, key: &str, val: ContextValue)
        requires
            ctx_wf(old(self)@),
            n < old(self)@.len(),
        ensures
            ctx_wf(final(self)@),
            final(self)@.len() == old(self)@.len(),
            forall|i: int| 0 <= i < old(self)@.len() && i != n ==> final(self)@[i] == old(self)@[i],
            final(self)@[n as int].name == old(self)@[n as int].name,
            final(self)@[n as int].parent == old(self)@[n as int].parent,
            final(self)@[n as int].children == old(self)@[n as int].children,
            assoc_find(final(self)@[n as int].scope, key@) == Some(val@),
            forall|k: Seq<char>|
                k != key@ ==> #[trigger] assoc_find(final(self)@[n as int].scope, k) == assoc_find(
                    old(self)@[n as int].scope,
                    k,
                ),
    {
        let ghost old_scope = self@[n as int].scope;
        self.nodes[n].scope.insert(0, (key.to_owned(), val));
        proof {
            assert(self@[n as int].scope =~= old_scope.insert(0, (key@, val@)));
            assert(self@[n as int].scope[0] == (key@, val@));
            assert(self@[n as int].scope.drop_first() =~= old_scope);
            lemma_ctx_wf_scope_change(old(self)@, self@, n as int);
        }
    }
}

/// A change confined to one node's scope preserves arena well-formedness.
proof fn lemma_ctx_wf_scope_change(old_nodes: Seq<CtxNodeV>, new_nodes: Seq<CtxNodeV>, n: int)
    requires
        ctx_wf(old_nodes),
        new_nodes.len() == old_nodes.len(),
        0 <= n < old_nodes.len(),
        forall|i: int| 0 <= i < old_nodes.len() && i != n ==> new_nodes[i] == old_nodes[i],
        new_nodes[n].parent == old_nodes[n].parent,
        new_nodes[n].children == old_nodes[n].children,
    ensures
        ctx_wf(new_nodes),
{
    assert forall|i: int| 0 <= i < new_nodes.len() implies #[trigger] node_wf(new_nodes, i) by {
        assert(node_wf(old_nodes, i));
    }
}

impl Context {
    /// The dotted name path from the root to node `n`, for diagnostics.
    pub fn path(&self, n: usize) -> (r: Vec<String>)
        requires
            ctx_wf(self@),
            n < self@.len(),
        ensures
            r.deep_view() == spec_path(self@, n as int),
        decreases n,
    {
        proof {
            assert(node_wf(self@, n as int));
            assert(self@[n as int] == self.nodes@[n as int]@);
        }
        let p_opt = self.nodes[n].parent;
        match p_opt {
            Some(p) => {
                let mut v = self.path(p);
                v.push(self.nodes[n].name.clone());
                proof {
                    assert(v.deep_view() =~= spec_path(self@, p as int).push(self@[n as int].name));
                }
                v
            },
            None => {
                let mut v: Vec<String> = Vec::new();
                v.push(self.nodes[n].name.clone());
                proof {
                    assert(v.deep_view() =~= seq![self@[n as int].name]);
                }
                v
            },
        }
    }

    /// Looks a single key up in node `n`'s local scope.
    pub fn lookup_local(&self, n: usize, key: &str) -> (r: Result<ContextValue, ContextLookupError>)
        requires
            ctx_wf(self@),
            n < self@.len(),
        ensures
            match assoc_find(self@[n as int].scope, key@) {
                Some(v) => r matches Ok(val) && val@ == v,
                None => lookup_result_view(r) == Err::<ExprV, _>(
                    ContextLookupErrorV::NoSuchMember {
                        member: key@,
                        context_path: spec_path(self@, n as int),
                    },
                ),
            },
    {
        let ghost scope = self@[n as int].scope;
        proof {
            assert(self@[n as int] == self.nodes@[n as int]@);
        }
        let m = self.nodes[n].scope.len();
        let mut j: usize = 0;
        proof {
            assert(scope.skip(0) =~= scope);
        }
        while j < m
            invariant
                ctx_wf(self@),
                n < self@.len(),
                scope == self@[n as int].scope,
                m == scope.len(),
                j <= m,
                assoc_find(scope.skip(j as int), key@) == assoc_find(scope, key@),
        decreases m - j,
        {
            proof {
                assert(self@[n as int] == self.nodes@[n as int]@);
                assert(scope.skip(j as int)[0] == scope[j as int]);
                assert(scope[j as int] == (self.nodes@[n as int].scope@[j as int].0@,
                self.nodes@[n as int].scope@[j as int].1@));
            }
            if crate::text::str_eq(self.nodes[n].scope[j].0.as_str(), key) {
                return Ok(self.nodes[n].scope[j].1.duplicate());
            }
            proof {
                assert(scope.skip(j as int).drop_first() =~= scope.skip(j as int + 1));
            }
            j += 1;
        }
        proof {
            assert(scope.skip(m as int) =~= Seq::<(Seq<char>, ExprV)>::empty());
        }
        Err(
            ContextLookupError::NoSuchMember {
                member: key.to_owned(),
                context_path: self.path(n),
            },
        )
    }

    /// The index of the child of node `n` named `key`, if any.
    fn find_child(&self, n: usize, key: &str) -> (r: Option<usize>)
        requires
            ctx_wf(self@),
            n < self@.len(),
        ensures
            match r {
                Some(c) => assoc_find(self@[n as int].children, key@) == Some(c),
                None => assoc_find(self@[n as int].children, key@) is None,
            },
    {
        let ghost children = self@[n as int].children;
        proof {
            assert(self@[n as int] == self.nodes@[n as int]@);
        }
        let m = self.nodes[n].children.len();
        let mut j: usize = 0;
        proof {
            assert(children.skip(0) =~= children);
        }
        while j < m
            invariant
                ctx_wf(self@),
                n < self@.len(),
                children == self@[n as int].children,
                m == children.len(),
                j <= m,
                assoc_find(children.skip(j as int), key@) == assoc_find(children, key@),
        decreases m - j,
        {
            proof {
                assert(self@[n as int] == self.nodes@[n as int]@);
                assert(children.skip(j as int)[0] == children[j as int]);
                assert(children[j as int] == (self.nodes@[n as int].children@[j as int].0@,
                self.nodes@[n as int].children@[j as int].1));
            }
            if crate::text::str_eq(self.nodes[n].children[j].0.as_str(), key) {
                return Some(self.nodes[n].children[j].1);
            }
            proof {
                assert(children.skip(j as int).drop_first() =~= children.skip(j as int + 1));
            }
            j += 1;
        }
        proof {
            assert(children.skip(m as int) =~= Seq::<(Seq<char>, usize)>::empty());
        }
        None
    }

    /// Resolves a reference path starting at node `n`, following the lookup
    /// protocol of [`spec_lookup`].
    pub fn lookup(&self, n: usize, key: &[String]) -> (r: Result<ContextValue, ContextLookupError>)
        requires
            ctx_wf(self@),
            n < self@.len(),
        ensures
            lookup_result_view(r) == spec_lookup(self@, n as int, key_view(key@)),
    {
        proof {
            assert(key_view(key@).skip(0) =~= key_view(key@));
        }
        self.lookup_from(n, key, 0)
    }

    fn lookup_from(&self, n: usize, key: &[String], pos: usize) -> (r: Result<
        ContextValue,
        ContextLookupError,
    >)
        requires
            ctx_wf(self@),
            n < self@.len(),
            pos <= key@.len(),
        ensures
            lookup_result_view(r) == spec_lookup(self@, n as int, key_view(key@).skip(pos as int)),
        decreases key@.len() - pos,
    {
        let ghost rest = key_view(key@).skip(pos as int);
        let klen = key.len();
        if pos >= klen {
            return Err(ContextLookupError::EmptyKey { context_path: self.path(n) });
        }
        proof {
            assert(rest[0] == key@[pos as int]@);
            assert(rest.drop_first() =~= key_view(key@).skip(pos as int + 1));
            assert(node_wf(self@, n as int));
            assert(self@[n as int] == self.nodes@[n as int]@);
        }
        let k0: &String = &key[pos];
        if crate::text::str_eq(k0.as_str(), "!super") {
            let p_opt = self.nodes[n].parent;
            match p_opt {
                None => Err(
                    ContextLookupError::NoSuchMember {
                        member: "!super".to_owned(),
                        context_path: self.path(n),
                    },
                ),
                Some(p) => self.lookup_from(p, key, pos + 1),
            }
        } else {
            match self.lookup_local(n, k0.as_str()) {
                Ok(val) => {
                    if klen - pos > 1 {
                        Err(
                            ContextLookupError::LookupOnValue {
                                member: k0.clone(),
                                value: val,
                            },
                        )
                    } else {
                        Ok(val)
                    }
                },
                Err(_) => {
                    match self.find_child(n, k0.as_str()) {
                        Some(c) => {
                            proof {
                                lemma_assoc_find_child(
                                    self@[n as int].children,
                                    rest[0],
                                    self@.len() as int,
                                );
                            }
                            self.lookup_from(c, key, pos + 1)
                        },
                        None => Err(
                            ContextLookupError::NoSuchMember {
                                member: k0.clone(),
                                context_path: self.path(n),
                            },
                        ),
                    }
                },
            }
        }
    }
}

/// Lookup law: the empty key fails with `EmptyKey` at every node.
pub proof fn lemma_lookup_empty_key(nodes: Seq<CtxNodeV>, n: int)
    requires
        ctx_wf(nodes),
        0 <= n < nodes.len(),
    ensures
        spec_lookup(nodes, n, Seq::empty()) == Err::<ExprV, _>(
            ContextLookupErrorV::EmptyKey { context_path: spec_path(nodes, n) },
        ),
{
}

/// Lookup law: a key starting with `!super` fails with `NoSuchMember` at any
/// parentless node, whatever follows.
pub proof fn lemma_lookup_super_at_root(nodes: Seq<CtxNodeV>, n: int, key: Seq<Seq<char>>)
    requires
        ctx_wf(nodes),
        0 <= n < nodes.len(),
        nodes[n].parent is None,
        key.len() > 0,
        key[0] == "!super"@,
    ensures
        spec_lookup(nodes, n, key) == Err::<ExprV, _>(
            ContextLookupErrorV::NoSuchMember {
                member: "!super"@,
                context_path: spec_path(nodes, n),
            },
        ),
{
}

/// Lookup law: a child's name followed by a key of that child's local scope
/// resolves to the child's local value (the name must not shadow a local
/// binding, and neither segment may be the `!super` sentinel).
pub proof fn lemma_lookup_child_then_local(
    nodes: Seq<CtxNodeV>,
    n: int,
    child_name: Seq<char>,
    k: Seq<char>,
    c: usize,
    v: ExprV,
)
    requires
        ctx_wf(nodes),
        0 <= n < nodes.len(),
        child_name != "!super"@,
        k != "!super"@,
        assoc_find(nodes[n].scope, child_name) is None,
        assoc_find(nodes[n].children, child_name) == Some(c),
        assoc_find(nodes[c as int].scope, k) == Some(v),
    ensures
        spec_lookup(nodes, n, seq![child_name, k]) == Ok::<_, ContextLookupErrorV>(v),
{
    let key = seq![child_name, k];
    assert(key[0] == child_name);
    assert(node_wf(nodes, n));
    lemma_assoc_find_child(nodes[n].children, child_name, nodes.len() as int);
    assert(key.drop_first() =~= seq![k]);
    assert(spec_lookup(nodes, n, key) == spec_lookup(nodes, c as int, seq![k]));
    assert(seq![k][0] == k);
    assert(spec_lookup(nodes, c as int, seq![k]) == Ok::<_, ContextLookupErrorV>(v));
}

/// Lookup law: a local scalar key followed by further segments fails with
/// `LookupOnValue`, since scalars have no members.
pub proof fn lemma_lookup_on_value(nodes: Seq<CtxNodeV>, n: int, key: Seq<Seq<char>>, v: ExprV)
    requires
        ctx_wf(nodes),
        0 <= n < nodes.len(),
        key.len() >= 2,
        key[0] != "!super"@,
        assoc_find(nodes[n].scope, key[0]) == Some(v),
    ensures
        spec_lookup(nodes, n, key) == Err::<ExprV, _>(
            ContextLookupErrorV::LookupOnValue { member: key[0], value: v },
        ),
{
}

/// The dotted rendering of a context path.
pub open spec fn spec_context_path_text(path: Seq<Seq<char>>) -> Seq<char> {
    crate::text::spec_join(path, "."@)
}

/// The single-line report of a lookup error.  The offending member and the
/// dotted path of the node where the lookup began identify the failure; a
/// scalar hit by a longer path is reported without printing the value.
pub open spec fn spec_lookup_error_message(e: ContextLookupErrorV) -> Seq<char> {
    match e {
        ContextLookupErrorV::NoSuchMember { member, context_path } => "No member \""@ + member
            + "\" at "@ + spec_context_path_text(context_path),
        ContextLookupErrorV::EmptyKey { context_path } => "Empty key at "@
            + spec_context_path_text(context_path),
        ContextLookupErrorV::LookupOnValue { member, value } => "Attempting to lookup \""@ + member
            + "\" on a context value"@,
    }
}

impl ContextLookupError {
    /// Renders a context path with dots between the segments.
    pub fn display_context_path(path: &Vec<String>) -> (r: String)
        ensures
            r@ == spec_context_path_text(path.deep_view()),
    {
        crate::text::join_strings(path, ".")
    }

    /// The single-line report of this error.
    pub fn message(&self) -> (r: String)
        ensures
            r@ == spec_lookup_error_message(self@),
    {
        match self {
            ContextLookupError::NoSuchMember { member, context_path } => {
                let mut out = String::new();
                out.append("No member \"");
                out.append(member.as_str());
                out.append("\" at ");
                let p = ContextLookupError::display_context_path(context_path);
                out.append(p.as_str());
                proof {
                    assert(Seq::<char>::empty() + "No member \""@ =~= "No member \""@);
                }
                out
            },
            ContextLookupError::EmptyKey { context_path } => {
                let mut out = String::new();
                out.append("Empty key at ");
                let p = ContextLookupError::display_context_path(context_path);
                out.append(p.as_str());
                proof {
                    assert(Seq::<char>::empty() + "Empty key at "@ =~= "Empty key at "@);
                }
                out
            },
            ContextLookupError::LookupOnValue { member, value } => {
                let mut out = String::new();
                out.append("Attempting to lookup \"");
                out.append(member.as_str());
                out.append("\" on a context value");
                proof {
                    assert(Seq::<char>::empty() + "Attempting to lookup \""@
                        =~= "Attempting to lookup \""@);
                }
                out
            },
        }
    }
}

} // verus!
