//! The transformer: walks the schema tree, parses every embedded URL
//! expression, merges each endpoint's declared query and body parameters
//! into its bound variables (rejecting duplicate names), and builds the
//! scope-bound IR together with the context tree used for cross-scope
//! references.
//!
//! The outcome is pinned by two specifications: `root_error` gives the
//! first error of the walk, if any, and `ir_matches_root` relates a
//! successful result to the schema field by field.

use crate::context::{ctx_wf, Context, ContextLookupError, ContextLookupErrorV, ContextValue, CtxNodeV};
use crate::ordered::{
    entry_keys, has_key, opt_map_entries, opt_map_entries_vec, param_map_entries, param_map_insert,
    param_map_new,
};
use crate::schema::{APIData, APISchema, APISetSchema, RootSchema};
use crate::se_parser::{
    distinct_names, param_names, parse_expr, spec_parse_expr, Expr, ExprV, Param, ParamV,
    ParserError, ParserErrorV,
};
use linked_hash_map::LinkedHashMap;
use vstd::prelude::*;

verus! {

/// The closed set of HTTP methods a schema may name.
#[derive(Debug, PartialEq)]
pub enum HttpMethod {
    GET,
    POST,
    PUT,
    DELETE,
    HEAD,
    OPTIONS,
    PATCH,
}

/// How the transformer can fail.
#[derive(Debug, PartialEq)]
pub enum TransformerError {
    ContextLookupError(ContextLookupError),
    ParserError(ParserError),
}

/// Mathematical counterpart of [`TransformerError`].
pub enum TransformerErrorV {
    ContextLookupError(ContextLookupErrorV),
    ParserError(ParserErrorV),
}

impl View for TransformerError {
    type V = TransformerErrorV;

    open spec fn view(&self) -> TransformerErrorV {
        match self {
            TransformerError::ContextLookupError(e) => TransformerErrorV::ContextLookupError(e@),
            TransformerError::ParserError(e) => TransformerErrorV::ParserError(e@),
        }
    }
}

impl From<ContextLookupError> for TransformerError {
    fn from(e: ContextLookupError) -> (r: Self) {
        TransformerError::ContextLookupError(e)
    }
}

impl vstd::std_specs::convert::FromSpecImpl<ContextLookupError> for TransformerError {
    open spec fn obeys_from_spec() -> bool {
        true
    }

    open spec fn from_spec(e: ContextLookupError) -> Self {
        TransformerError::ContextLookupError(e)
    }
}

impl From<ParserError> for TransformerError {
    fn from(e: ParserError) -> (r: Self) {
        TransformerError::ParserError(e)
    }
}

impl vstd::std_specs::convert::FromSpecImpl<ParserError> for TransformerError {
    open spec fn obeys_from_spec() -> bool {
        true
    }

    open spec fn from_spec(e: ParserError) -> Self {
        TransformerError::ParserError(e)
    }
}

/// The scope-bound root: class name, URL expression, bound variables, and
/// the children in schema order.  `context` owns the whole context tree;
/// the root's own node is index 0, and every IR node below names its node
/// by index.
#[derive(Debug, PartialEq)]
pub struct ContextBoundedRoot {
    pub klsname: String,
    pub url: ContextValue,
    pub bounded_vars: LinkedHashMap<String, Param>,
    pub apisets: Vec<(String, ContextBoundedAPIData)>,
    pub context: Context,
}

/// A scope-bound child: an endpoint or a nested group.
#[derive(Debug, PartialEq)]
pub enum ContextBoundedAPIData {
    API(ContextBoundedAPI),
    APISet(ContextBoundedAPISet),
}

/// A scope-bound endpoint.
#[derive(Debug, PartialEq)]
pub struct ContextBoundedAPI {
    pub name: String,
    pub method: HttpMethod,
    pub url: ContextValue,
    pub bounded_vars: LinkedHashMap<String, Param>,
    pub data: LinkedHashMap<String, Param>,
    pub params: LinkedHashMap<String, Param>,
    pub context: usize,
}

/// A scope-bound group.
#[derive(Debug, PartialEq)]
pub struct ContextBoundedAPISet {
    pub name: String,
    pub url: ContextValue,
    pub bounded_vars: LinkedHashMap<String, Param>,
    pub apisets: Vec<(String, ContextBoundedAPIData)>,
    pub context: usize,
}

/// The context-node index an IR child points at.
pub open spec fn data_context(x: ContextBoundedAPIData) -> usize {
    match x {
        ContextBoundedAPIData::API(a) => a.context,
        ContextBoundedAPIData::APISet(s) => s.context,
    }
}

/// Whether a method string names a known HTTP method, in either case.
pub open spec fn is_valid_method(s: Seq<char>) -> bool {
    ||| s == "get"@
    ||| s == "GET"@
    ||| s == "post"@
    ||| s == "POST"@
    ||| s == "put"@
    ||| s == "PUT"@
    ||| s == "delete"@
    ||| s == "DELETE"@
    ||| s == "head"@
    ||| s == "HEAD"@
    ||| s == "options"@
    ||| s == "OPTIONS"@
    ||| s == "patch"@
    ||| s == "PATCH"@
}

/// The method tag a valid method string denotes.
pub open spec fn spec_method_of(s: Seq<char>) -> HttpMethod {
    if s == "get"@ || s == "GET"@ {
        HttpMethod::GET
    } else if s == "post"@ || s == "POST"@ {
        HttpMethod::POST
    } else if s == "put"@ || s == "PUT"@ {
        HttpMethod::PUT
    } else if s == "delete"@ || s == "DELETE"@ {
        HttpMethod::DELETE
    } else if s == "head"@ || s == "HEAD"@ {
        HttpMethod::HEAD
    } else if s == "options"@ || s == "OPTIONS"@ {
        HttpMethod::OPTIONS
    } else {
        HttpMethod::PATCH
    }
}

/// Every endpoint under this child names a known HTTP method.
pub open spec fn data_methods_valid(a: APIData) -> bool
    decreases a,
{
    match a {
        APIData::API(s) => is_valid_method(s.method@),
        APIData::APISet(s) => children_methods_valid(s.apisets.0@),
    }
}

/// Every endpoint under these children names a known HTTP method.
pub open spec fn children_methods_valid(cs: Seq<(String, APIData)>) -> bool
    decreases cs,
{
    if cs.len() == 0 {
        true
    } else {
        data_methods_valid(cs[0].1) && children_methods_valid(cs.drop_first())
    }
}

/// Every endpoint of the schema names a known HTTP method.
pub open spec fn root_methods_valid(s: RootSchema) -> bool {
    children_methods_valid(s.apisets.0@)
}

/// Validity of one child follows from validity of the list.
proof fn lemma_children_methods_valid_index(cs: Seq<(String, APIData)>, i: int)
    requires
        children_methods_valid(cs),
        0 <= i < cs.len(),
    ensures
        data_methods_valid(cs[i].1),
    decreases cs.len(),
{
    if i > 0 {
        lemma_children_methods_valid_index(cs.drop_first(), i - 1);
    }
}

/// Parameters as bound-variable entries, keyed by their names.
pub open spec fn params_to_entries(ps: Seq<ParamV>) -> Seq<(Seq<char>, ParamV)> {
    ps.map_values(|p: ParamV| (p.name, p))
}

/// Declared query or body parameters as bound-variable entries.
pub open spec fn opts_to_entries(es: Seq<(Seq<char>, Option<Seq<char>>)>) -> Seq<
    (Seq<char>, ParamV),
> {
    es.map_values(|e: (Seq<char>, Option<Seq<char>>)| (e.0, ParamV { name: e.0, typ: e.1 }))
}

/// Merges declared parameters into the bound variables in order; the first
/// name already bound is the duplicate reported.
pub open spec fn merge_entries(
    base: Seq<(Seq<char>, ParamV)>,
    adds: Seq<(Seq<char>, Option<Seq<char>>)>,
) -> Result<Seq<(Seq<char>, ParamV)>, Seq<char>>
    decreases adds.len(),
{
    if adds.len() == 0 {
        Ok(base)
    } else if has_key(base, adds[0].0) {
        Err(adds[0].0)
    } else {
        merge_entries(
            base.push((adds[0].0, ParamV { name: adds[0].0, typ: adds[0].1 })),
            adds.drop_first(),
        )
    }
}

/// The bound-variable entries of an endpoint: URL parameters, then query
/// parameters, then body fields, or the first duplicate name.
pub open spec fn api_bound_entries(s: APISchema) -> Result<Seq<(Seq<char>, ParamV)>, Seq<char>> {
    match spec_parse_expr(s.url@) {
        Err(_) => Err(Seq::empty()),
        Ok((_, ps)) => match merge_entries(params_to_entries(ps), opt_map_entries(s.params)) {
            Err(k) => Err(k),
            Ok(m1) => merge_entries(m1, opt_map_entries(s.data)),
        },
    }
}

/// The first error below this child, in walk order, if any.
pub open spec fn data_error(a: APIData) -> Option<ParserErrorV>
    decreases a,
{
    match a {
        APIData::API(s) => api_error(s),
        APIData::APISet(s) => apiset_error(s),
    }
}

/// The first error of an endpoint: a URL parse error, then a duplicate
/// parameter name.
pub open spec fn api_error(s: APISchema) -> Option<ParserErrorV> {
    match spec_parse_expr(s.url@) {
        Err(e) => Some(e),
        Ok((_, ps)) => match merge_entries(params_to_entries(ps), opt_map_entries(s.params)) {
            Err(k) => Some(ParserErrorV::DuplicateParam(k)),
            Ok(m1) => match merge_entries(m1, opt_map_entries(s.data)) {
                Err(k) => Some(ParserErrorV::DuplicateParam(k)),
                Ok(_) => None,
            },
        },
    }
}

/// The first error of a group: its own URL parse error, then the first
/// error among its children in order.
pub open spec fn apiset_error(s: APISetSchema) -> Option<ParserErrorV>
    decreases s,
{
    match spec_parse_expr(s.url@) {
        Err(e) => Some(e),
        Ok(_) => children_error(s.apisets.0@),
    }
}

/// The first error among children, in schema order.
pub open spec fn children_error(cs: Seq<(String, APIData)>) -> Option<ParserErrorV>
    decreases cs,
{
    if cs.len() == 0 {
        None
    } else {
        match data_error(cs[0].1) {
            Some(e) => Some(e),
            None => children_error(cs.drop_first()),
        }
    }
}

/// The first error of the whole schema: the root URL's parse error, then
/// the first error among the children.
pub open spec fn root_error(s: RootSchema) -> Option<ParserErrorV> {
    match s.url {
        Some(u) => match spec_parse_expr(u@) {
            Err(e) => Some(e),
            Ok(_) => children_error(s.apisets.0@),
        },
        None => children_error(s.apisets.0@),
    }
}

/// Relates a scope-bound child to its schema child: names, parsed URLs,
/// merged bound variables, children in schema order, and a context node
/// whose name, parent and children mirror the IR node.
pub open spec fn ir_matches_data(
    name: Seq<char>,
    a: APIData,
    x: ContextBoundedAPIData,
    arena: Seq<CtxNodeV>,
    parent: int,
) -> bool
    decreases a,
{
    match a {
        APIData::API(s) => (x matches ContextBoundedAPIData::API(y) && ir_matches_api(
            name,
            s,
            y,
            arena,
            parent,
        )),
        APIData::APISet(s) => (x matches ContextBoundedAPIData::APISet(y) && ir_matches_apiset(
            name,
            s,
            y,
            arena,
            parent,
        )),
    }
}

/// The context-node obligations shared by every IR node.
pub open spec fn ctx_node_matches(
    c: int,
    name: Seq<char>,
    arena: Seq<CtxNodeV>,
    parent: int,
) -> bool {
    &&& parent < c < arena.len()
    &&& arena[c].name == name
    &&& arena[c].parent == Some(parent as usize)
    &&& arena[c].scope.len() == 0
}

/// Relates a scope-bound endpoint to its schema endpoint.
pub open spec fn ir_matches_api(
    name: Seq<char>,
    s: APISchema,
    y: ContextBoundedAPI,
    arena: Seq<CtxNodeV>,
    parent: int,
) -> bool {
    &&& y.name@ == name
    &&& y.method == spec_method_of(s.method@)
    &&& (spec_parse_expr(s.url@) matches Ok(pr) && y.url@ == pr.0)
    &&& (api_bound_entries(s) matches Ok(es) && param_map_entries(y.bounded_vars) == es)
    &&& param_map_entries(y.params) == opts_to_entries(opt_map_entries(s.params))
    &&& param_map_entries(y.data) == opts_to_entries(opt_map_entries(s.data))
    &&& ctx_node_matches(y.context as int, name, arena, parent)
    &&& arena[y.context as int].children.len() == 0
}

/// Relates a scope-bound group to its schema group.
pub open spec fn ir_matches_apiset(
    name: Seq<char>,
    s: APISetSchema,
    y: ContextBoundedAPISet,
    arena: Seq<CtxNodeV>,
    parent: int,
) -> bool
    decreases s,
{
    &&& y.name@ == name
    &&& (spec_parse_expr(s.url@) matches Ok(pr) && y.url@ == pr.0 && param_map_entries(
        y.bounded_vars,
    ) == params_to_entries(pr.1))
    &&& ctx_node_matches(y.context as int, name, arena, parent)
    &&& ir_children_match(s.apisets.0@, y.apisets@, arena, y.context as int)
}

/// Relates IR children to schema children, element by element and in order,
/// and requires the context node's children mapping to list exactly the IR
/// children's names and context indices.
pub open spec fn ir_children_match(
    cs: Seq<(String, APIData)>,
    xs: Seq<(String, ContextBoundedAPIData)>,
    arena: Seq<CtxNodeV>,
    parent: int,
) -> bool
    decreases cs,
{
    &&& xs.len() == cs.len()
    &&& 0 <= parent < arena.len()
    &&& arena[parent].children.len() == cs.len()
    &&& (forall|i: int|
        0 <= i < cs.len() ==> {
            &&& (#[trigger] xs[i]).0@ == cs[i].0@
            &&& ir_matches_data(cs[i].0@, cs[i].1, xs[i].1, arena, parent)
            &&& arena[parent].children[i] == (cs[i].0@, data_context(xs[i].1))
        })
}

/// The root's URL expression and bound variables: the parsed `$url`, or,
/// when the document declares none, the synthesized `url` parameter of type
/// `string`.
pub open spec fn root_url_matches(
    s: RootSchema,
    url: ContextValue,
    bv: LinkedHashMap<String, Param>,
) -> bool {
    match s.url {
        Some(u) => spec_parse_expr(u@) matches Ok(pr) && url@ == pr.0 && param_map_entries(bv)
            == params_to_entries(pr.1),
        None => url@ == ExprV::Var("url"@) && param_map_entries(bv) == seq![
            ("url"@, ParamV { name: "url"@, typ: Some("string"@) }),
        ],
    }
}

/// Relates a transformed root to its schema: the class name, the root URL
/// (parsed, or the synthesized `url` parameter when absent), the root's
/// bound variables, the children in schema order, and a root context node
/// mirroring them.
pub open spec fn ir_matches_root(s: RootSchema, x: ContextBoundedRoot) -> bool {
    &&& ctx_wf(x.context@)
    &&& x.klsname@ == s.klsname@
    &&& x.context@.len() >= 1
    &&& x.context@[0].name == s.klsname@
    &&& x.context@[0].parent is None
    &&& x.context@[0].scope.len() == 0
    &&& root_url_matches(s, x.url, x.bounded_vars)
    &&& ir_children_match(s.apisets.0@, x.apisets@, x.context@, 0)
}

impl HttpMethod {
    /// The method tag of a known method string (either case).
    pub fn from_str(s: &str) -> (r: HttpMethod)
        requires
            is_valid_method(s@),
        ensures
            r == spec_method_of(s@),
    {
        if crate::text::str_eq(s, "get") || crate::text::str_eq(s, "GET") {
            HttpMethod::GET
        } else if crate::text::str_eq(s, "post") || crate::text::str_eq(s, "POST") {
            HttpMethod::POST
        } else if crate::text::str_eq(s, "put") || crate::text::str_eq(s, "PUT") {
            HttpMethod::PUT
        } else if crate::text::str_eq(s, "delete") || crate::text::str_eq(s, "DELETE") {
            HttpMethod::DELETE
        } else if crate::text::str_eq(s, "head") || crate::text::str_eq(s, "HEAD") {
            HttpMethod::HEAD
        } else if crate::text::str_eq(s, "options") || crate::text::str_eq(s, "OPTIONS") {
            HttpMethod::OPTIONS
        } else {
            HttpMethod::PATCH
        }
    }
}

/// An exact copy of a parameter, by value.
fn param_duplicate(p: &Param) -> (r: Param)
    ensures
        r@ == p@,
{
    let typ_copy = match &p.typ {
        Some(t) => Some(t.clone()),
        None => None,
    };
    Param { name: p.name.clone(), typ: typ_copy }
}

/// Builds the bound-variable map of a freshly parsed expression, whose
/// parameter names are pairwise distinct.
fn params_to_map(vars: &Vec<Param>) -> (r: LinkedHashMap<String, Param>)
    requires
        distinct_names(param_names(vars.deep_view())),
    ensures
        param_map_entries(r) == params_to_entries(vars.deep_view()),
{
    let ghost dv = vars.deep_view();
    let mut m = param_map_new();
    let mut i: usize = 0;
    proof {
        assert(params_to_entries(dv.take(0)) =~= Seq::<(Seq<char>, ParamV)>::empty());
    }
    while i < vars.len()
        invariant
            dv == vars.deep_view(),
            dv.len() == vars.len(),
            i <= vars.len(),
            distinct_names(param_names(dv)),
            param_map_entries(m) == params_to_entries(dv.take(i as int)),
        decreases vars.len() - i,
    {
        let p = &vars[i];
        let copy = param_duplicate(p);
        proof {
            assert(dv[i as int] == vars@[i as int]@);
            let cur = params_to_entries(dv.take(i as int));
            assert forall|j: int| 0 <= j < cur.len() implies (#[trigger] cur[j]).0 != p.name@ by {
                assert(cur[j] == (dv.take(i as int)[j].name, dv.take(i as int)[j]));
                assert(param_names(dv)[j] == dv[j].name);
                assert(param_names(dv)[i as int] == dv[i as int].name);
            }
            assert(!has_key(cur, p.name@));
        }
        let o = param_map_insert(&mut m, p.name.clone(), copy);
        proof {
            assert(params_to_entries(dv.take(i as int + 1)) =~= params_to_entries(
                dv.take(i as int),
            ).push((dv[i as int].name, dv[i as int])));
        }
        i += 1;
    }
    proof {
        assert(dv.take(vars.len() as int) =~= dv);
    }
    m
}

/// Merges declared query or body parameters into the bound variables,
/// reporting the first already-bound name as a duplicate.
fn merge_params(
    bounded: &mut LinkedHashMap<String, Param>,
    adds: &LinkedHashMap<String, Option<String>>,
) -> (r: Result<(), ParserError>)
    ensures
        r matches Ok(u) ==> (merge_entries(param_map_entries(*old(bounded)), opt_map_entries(*adds))
            matches Ok(es) && param_map_entries(*final(bounded)) == es),
        r matches Err(e) ==> (merge_entries(
            param_map_entries(*old(bounded)),
            opt_map_entries(*adds),
        ) matches Err(k) && e@ == ParserErrorV::DuplicateParam(k)),
{
    let ghost addsv = opt_map_entries(*adds);
    let ghost base0 = param_map_entries(*old(bounded));
    let entries = opt_map_entries_vec(adds);
    let mut i: usize = 0;
    proof {
        assert(addsv.skip(0) =~= addsv);
    }
    while i < entries.len()
        invariant
            base0 == param_map_entries(*old(bounded)),
            addsv == opt_map_entries(*adds),
            entries.deep_view() == addsv,
            addsv.len() == entries.len(),
            i <= entries.len(),
            merge_entries(param_map_entries(*bounded), addsv.skip(i as int)) == merge_entries(
                base0,
                addsv,
            ),
        decreases entries.len() - i,
    {
        let ghost cur = param_map_entries(*bounded);
        proof {
            assert(addsv.skip(i as int)[0] == addsv[i as int]);
            assert(addsv[i as int] == entries.deep_view()[i as int]);
            assert(entries.deep_view()[i as int] == (entries@[i as int].0@,
            entries@[i as int].1.deep_view()));
        }
        let k: String = entries[i].0.clone();
        let t: Option<String> = match &entries[i].1 {
            Some(tt) => Some(tt.clone()),
            None => None,
        };
        let p = Param { name: k.clone(), typ: t };
        let o = param_map_insert(bounded, k.clone(), p);
        match o {
            Some(_) => {
                proof {
                    assert(k@ == addsv[i as int].0);
                    assert(has_key(cur, addsv[i as int].0));
                    assert(merge_entries(cur, addsv.skip(i as int)) == Err::<
                        Seq<(Seq<char>, ParamV)>,
                        _,
                    >(addsv[i as int].0));
                    assert(merge_entries(base0, addsv) == Err::<Seq<(Seq<char>, ParamV)>, _>(
                        addsv[i as int].0,
                    ));
                }
                return Err(ParserError::DuplicateParam(k));
            },
            None => {
                proof {
                    assert(!has_key(cur, addsv[i as int].0));
                    assert(param_map_entries(*bounded) == cur.push(
                        (addsv[i as int].0, ParamV {
                            name: addsv[i as int].0,
                            typ: addsv[i as int].1,
                        }),
                    ));
                    assert(addsv.skip(i as int).drop_first() =~= addsv.skip(i as int + 1));
                }
            },
        }
        i += 1;
    }
    proof {
        assert(addsv.skip(entries.len() as int) =~= Seq::<(Seq<char>, Option<Seq<char>>)>::empty());
    }
    Ok(())
}

/// A successful merge appends exactly the declared parameters, whose names
/// were pairwise distinct and none already bound.
pub proof fn lemma_merge_ok(
    base: Seq<(Seq<char>, ParamV)>,
    adds: Seq<(Seq<char>, Option<Seq<char>>)>,
)
    ensures
        merge_entries(base, adds) matches Ok(r) ==> {
            &&& r == base + opts_to_entries(adds)
            &&& distinct_names(entry_keys(adds))
            &&& forall|i: int| 0 <= i < adds.len() ==> !has_key(base, (#[trigger] adds[i]).0)
        },
    decreases adds.len(),
{
    if adds.len() == 0 {
        if merge_entries(base, adds) is Ok {
            assert(opts_to_entries(adds) =~= Seq::<(Seq<char>, ParamV)>::empty());
            assert(base + opts_to_entries(adds) =~= base);
        }
    } else if !has_key(base, adds[0].0) {
        let base2 = base.push((adds[0].0, ParamV { name: adds[0].0, typ: adds[0].1 }));
        lemma_merge_ok(base2, adds.drop_first());
        if merge_entries(base, adds) is Ok {
            assert(merge_entries(base2, adds.drop_first()) is Ok);
            assert(base2 + opts_to_entries(adds.drop_first()) =~= base + opts_to_entries(adds)) by {
                assert forall|j: int| 0 <= j < adds.len() implies opts_to_entries(adds)[j] == (
                adds[j].0, ParamV { name: adds[j].0, typ: adds[j].1 }) by {}
                assert forall|j: int|
                    0 <= j < adds.drop_first().len() implies opts_to_entries(adds.drop_first())[j]
                    == (adds[j + 1].0, ParamV { name: adds[j + 1].0, typ: adds[j + 1].1 }) by {
                    assert(adds.drop_first()[j] == adds[j + 1]);
                }
            }
            assert(distinct_names(entry_keys(adds))) by {
                let ks = entry_keys(adds);
                assert forall|a: int, b: int| 0 <= a < b < ks.len() implies ks[a] != ks[b] by {
                    assert(ks[a] == adds[a].0);
                    assert(ks[b] == adds[b].0);
                    let dks = entry_keys(adds.drop_first());
                    if a == 0 {
                        assert(!has_key(base2, adds[b].0)) by {
                            assert(forall|i: int|
                                0 <= i < adds.drop_first().len() ==> !has_key(
                                    base2,
                                    (#[trigger] adds.drop_first()[i]).0,
                                ));
                            assert(adds.drop_first()[b - 1] == adds[b]);
                        }
                        assert(base2[base.len() as int].0 == adds[0].0);
                        if adds[a].0 == adds[b].0 {
                            assert(has_key(base2, adds[b].0));
                        }
                    } else {
                        assert(distinct_names(dks));
                        assert(dks[a - 1] == adds[a].0);
                        assert(dks[b - 1] == adds[b].0);
                    }
                }
            }
            assert forall|i: int| 0 <= i < adds.len() implies !has_key(
                base,
                (#[trigger] adds[i]).0,
            ) by {
                if i > 0 {
                    assert(adds.drop_first()[i - 1] == adds[i]);
                    assert(!has_key(base2, adds[i].0));
                    if has_key(base, adds[i].0) {
                        let w = choose|w: int|
                            0 <= w < base.len() && (#[trigger] base[w]).0 == adds[i].0;
                        assert(base2[w].0 == adds[i].0);
                        assert(has_key(base2, adds[i].0));
                    }
                }
            }
        }
    }
}

/// The IR-to-schema relation only reads arena nodes beyond `parent`, so it
/// survives changes to `parent` and earlier nodes and any number of appended
/// nodes.
proof fn lemma_ir_frame_data(
    name: Seq<char>,
    a: APIData,
    x: ContextBoundedAPIData,
    arena1: Seq<CtxNodeV>,
    arena2: Seq<CtxNodeV>,
    parent: int,
)
    requires
        ir_matches_data(name, a, x, arena1, parent),
        arena2.len() >= arena1.len(),
        forall|i: int| parent < i < arena1.len() ==> arena2[i] == arena1[i],
    ensures
        ir_matches_data(name, a, x, arena2, parent),
    decreases a,
{
    match a {
        APIData::API(s) => {},
        APIData::APISet(s) => {
            let y = x->APISet_0;
            let cs = s.apisets.0@;
            let xs = y.apisets@;
            assert forall|i: int| 0 <= i < cs.len() implies {
                &&& (#[trigger] xs[i]).0@ == cs[i].0@
                &&& ir_matches_data(cs[i].0@, cs[i].1, xs[i].1, arena2, y.context as int)
                &&& arena2[y.context as int].children[i] == (cs[i].0@, data_context(xs[i].1))
            } by {
                assert(ir_matches_data(cs[i].0@, cs[i].1, xs[i].1, arena1, y.context as int));
                lemma_ir_frame_data(cs[i].0@, cs[i].1, xs[i].1, arena1, arena2, y.context as int);
            }
        },
    }
}

/// The first failing child determines the children's error.
proof fn lemma_children_error_at(cs: Seq<(String, APIData)>, i: int)
    requires
        0 <= i < cs.len(),
        forall|j: int| 0 <= j < i ==> data_error((#[trigger] cs[j]).1) is None,
        data_error(cs[i].1) is Some,
    ensures
        children_error(cs) == data_error(cs[i].1),
    decreases cs.len(),
{
    if i > 0 {
        assert(data_error(cs[0].1) is None);
        assert forall|j: int| 0 <= j < i - 1 implies data_error(
            (#[trigger] cs.drop_first()[j]).1,
        ) is None by {
            assert(cs.drop_first()[j] == cs[j + 1]);
        }
        assert(cs.drop_first()[i - 1] == cs[i]);
        lemma_children_error_at(cs.drop_first(), i - 1);
    }
}

/// When no child fails, the children produce no error.
proof fn lemma_children_error_none(cs: Seq<(String, APIData)>)
    requires
        forall|j: int| 0 <= j < cs.len() ==> data_error((#[trigger] cs[j]).1) is None,
    ensures
        children_error(cs) is None,
    decreases cs.len(),
{
    if cs.len() > 0 {
        assert forall|j: int| 0 <= j < cs.drop_first().len() implies data_error(
            (#[trigger] cs.drop_first()[j]).1,
        ) is None by {
            assert(cs.drop_first()[j] == cs[j + 1]);
        }
        lemma_children_error_none(cs.drop_first());
    }
}

/// Transforms one schema child into its scope-bound IR node under `parent`,
/// appending its context subtree to the arena.
pub fn transform_apiset(name: &str, apiset: &APIData, ctx: &mut Context, parent: usize) -> (r:
    Result<ContextBoundedAPIData, TransformerError>)
    requires
        ctx_wf(old(ctx)@),
        parent < old(ctx)@.len(),
        data_methods_valid(*apiset),
    ensures
        ctx_wf(final(ctx)@),
        final(ctx)@.len() > old(ctx)@.len(),
        forall|i: int| 0 <= i < old(ctx)@.len() && i != parent ==> final(ctx)@[i] == old(ctx)@[i],
        final(ctx)@[parent as int].name == old(ctx)@[parent as int].name,
        final(ctx)@[parent as int].parent == old(ctx)@[parent as int].parent,
        final(ctx)@[parent as int].scope == old(ctx)@[parent as int].scope,
        final(ctx)@[parent as int].children == old(ctx)@[parent as int].children.push(
            (name@, old(ctx)@.len() as usize),
        ),
        r matches Ok(x) ==> data_error(*apiset) is None && data_context(x) == old(ctx)@.len()
            && ir_matches_data(name@, *apiset, x, final(ctx)@, parent as int),
        r matches Err(e) ==> (data_error(*apiset) matches Some(pe) && e@
            == TransformerErrorV::ParserError(pe)),
    decreases *apiset,
{
    let ghost pre = ctx@;
    let idx = ctx.add_child(parent, name);
    match apiset {
        APIData::APISet(schema) => {
            match parse_expr(schema.url.as_str()) {
                Err(e) => Err(TransformerError::ParserError(e)),
                Ok((expr, vars)) => {
                    let bounded_vars = params_to_map(&vars);
                    let mut children: Vec<(String, ContextBoundedAPIData)> = Vec::new();
                    let ghost cs = schema.apisets.0@;
                    let ghost base = ctx@;
                    let n = schema.apisets.0.len();
                    let mut i: usize = 0;
                    while i < n
                        invariant
                            pre == old(ctx)@,
                            n == cs.len(),
                            i <= n,
                            cs == schema.apisets.0@,
                            children_methods_valid(cs),
                            apiset matches APIData::APISet(sch) && sch == schema,
                            data_error(*apiset) == children_error(cs),
                            spec_parse_expr(schema.url@) matches Ok(pr) && expr@ == pr.0
                                && param_map_entries(bounded_vars) == params_to_entries(pr.1),
                            ctx_wf(ctx@),
                            idx == pre.len(),
                            parent < pre.len(),
                            base.len() == pre.len() + 1,
                            ctx@.len() >= base.len(),
                            forall|j: int| 0 <= j < pre.len() && j != parent ==> ctx@[j] == pre[j],
                            ctx@[parent as int].name == pre[parent as int].name,
                            ctx@[parent as int].parent == pre[parent as int].parent,
                            ctx@[parent as int].scope == pre[parent as int].scope,
                            ctx@[parent as int].children == pre[parent as int].children.push(
                                (name@, idx as usize),
                            ),
                            ctx@[idx as int].name == name@,
                            ctx@[idx as int].parent == Some(parent),
                            ctx@[idx as int].scope.len() == 0,
                            children@.len() == i,
                            ctx@[idx as int].children.len() == i,
                            forall|j: int|
                                0 <= j < i ==> {
                                    &&& (#[trigger] children@[j]).0@ == cs[j].0@
                                    &&& ir_matches_data(
                                        cs[j].0@,
                                        cs[j].1,
                                        children@[j].1,
                                        ctx@,
                                        idx as int,
                                    )
                                    &&& ctx@[idx as int].children[j] == (
                                    cs[j].0@,
                                    data_context(children@[j].1),
                                    )
                                    &&& data_error(cs[j].1) is None
                                },
                        decreases n - i,
                    {
                        proof {
                            lemma_children_methods_valid_index(cs, i as int);
                            assert(cs[i as int] == (schema.apisets.0@[i as int].0,
                            schema.apisets.0@[i as int].1));
                            assert(decreases_to!(*apiset => *schema));
                            assert(decreases_to!(*schema => schema.apisets));
                            assert(decreases_to!(schema.apisets => schema.apisets.0));
                            assert(decreases_to!(schema.apisets.0 => schema.apisets.0@));
                            assert(decreases_to!(schema.apisets.0@ => schema.apisets.0@[i as int]));
                            assert(decreases_to!(schema.apisets.0@[i as int] => schema.apisets.0@[i as int].1));
                        }
                        let pair = &schema.apisets.0[i];
                        let ghost ctx_before = ctx@;
                        let sub = transform_apiset(pair.0.as_str(), &pair.1, ctx, idx);
                        match sub {
                            Err(e) => {
                                proof {
                                    assert forall|j: int| 0 <= j < i implies data_error(
                                        (#[trigger] cs[j]).1,
                                    ) is None by {
                                        assert(children@[j].0@ == cs[j].0@);
                                    }
                                    lemma_children_error_at(cs, i as int);
                                }
                                return Err(e);
                            },
                            Ok(child) => {
                                proof {
                                    assert forall|j: int| 0 <= j < i implies ir_matches_data(
                                        cs[j].0@,
                                        cs[j].1,
                                        (#[trigger] children@[j]).1,
                                        ctx@,
                                        idx as int,
                                    ) by {
                                        lemma_ir_frame_data(
                                            cs[j].0@,
                                            cs[j].1,
                                            children@[j].1,
                                            ctx_before,
                                            ctx@,
                                            idx as int,
                                        );
                                    }
                                }
                                children.push((pair.0.clone(), child));
                                proof {
                                    assert(children@[i as int].0@ == cs[i as int].0@);
                                }
                            },
                        }
                        i += 1;
                    }
                    let result = ContextBoundedAPISet {
                        name: name.to_owned(),
                        url: ContextValue::Expr(expr),
                        bounded_vars,
                        apisets: children,
                        context: idx,
                    };
                    proof {
                        assert forall|j: int| 0 <= j < cs.len() implies data_error(
                            (#[trigger] cs[j]).1,
                        ) is None by {
                            assert(children@[j].0@ == cs[j].0@);
                        }
                        lemma_children_error_none(cs);
                    }
                    Ok(ContextBoundedAPIData::APISet(result))
                },
            }
        },
        APIData::API(schema) => {
            match parse_expr(schema.url.as_str()) {
                Err(e) => Err(TransformerError::ParserError(e)),
                Ok((expr, vars)) => {
                    let mut bounded_vars = params_to_map(&vars);
                    let ghost url_entries = params_to_entries(vars.deep_view());
                    match merge_params(&mut bounded_vars, &schema.params) {
                        Err(e) => {
                            return Err(TransformerError::ParserError(e));
                        },
                        Ok(_) => {},
                    }
                    match merge_params(&mut bounded_vars, &schema.data) {
                        Err(e) => {
                            return Err(TransformerError::ParserError(e));
                        },
                        Ok(_) => {},
                    }
                    proof {
                        lemma_merge_ok(url_entries, opt_map_entries(schema.params));
                        match merge_entries(url_entries, opt_map_entries(schema.params)) {
                            Ok(m1) => {
                                lemma_merge_ok(m1, opt_map_entries(schema.data));
                            },
                            Err(_) => {},
                        }
                    }
                    let params_map = opts_to_param_map(&schema.params);
                    let data_map = opts_to_param_map(&schema.data);
                    let method = HttpMethod::from_str(schema.method.as_str());
                    let result = ContextBoundedAPI {
                        name: name.to_owned(),
                        method,
                        url: ContextValue::Expr(expr),
                        bounded_vars,
                        data: data_map,
                        params: params_map,
                        context: idx,
                    };
                    Ok(ContextBoundedAPIData::API(result))
                },
            }
        },
    }
}

/// Builds a declared-parameter map (query or body) whose keys are known to
/// be pairwise distinct.
fn opts_to_param_map(adds: &LinkedHashMap<String, Option<String>>) -> (r: LinkedHashMap<
    String,
    Param,
>)
    requires
        distinct_names(entry_keys(opt_map_entries(*adds))),
    ensures
        param_map_entries(r) == opts_to_entries(opt_map_entries(*adds)),
{
    let ghost addsv = opt_map_entries(*adds);
    let entries = opt_map_entries_vec(adds);
    let mut m = param_map_new();
    let mut i: usize = 0;
    proof {
        assert(opts_to_entries(addsv.take(0)) =~= Seq::<(Seq<char>, ParamV)>::empty());
    }
    while i < entries.len()
        invariant
            addsv == opt_map_entries(*adds),
            entries.deep_view() == addsv,
            addsv.len() == entries.len(),
            i <= entries.len(),
            distinct_names(entry_keys(addsv)),
            param_map_entries(m) == opts_to_entries(addsv.take(i as int)),
        decreases entries.len() - i,
    {
        proof {
            assert(addsv[i as int] == entries.deep_view()[i as int]);
            assert(entries.deep_view()[i as int] == (entries@[i as int].0@,
            entries@[i as int].1.deep_view()));
            let cur = opts_to_entries(addsv.take(i as int));
            assert forall|j: int| 0 <= j < cur.len() implies (#[trigger] cur[j]).0
                != addsv[i as int].0 by {
                assert(cur[j] == (addsv.take(i as int)[j].0, ParamV {
                    name: addsv.take(i as int)[j].0,
                    typ: addsv.take(i as int)[j].1,
                }));
                assert(entry_keys(addsv)[j] == addsv[j].0);
                assert(entry_keys(addsv)[i as int] == addsv[i as int].0);
            }
            assert(!has_key(cur, addsv[i as int].0));
        }
        let k: String = entries[i].0.clone();
        let t: Option<String> = match &entries[i].1 {
            Some(tt) => Some(tt.clone()),
            None => None,
        };
        let p = Param { name: k.clone(), typ: t };
        let o = param_map_insert(&mut m, k, p);
        proof {
            assert(opts_to_entries(addsv.take(i as int + 1)) =~= opts_to_entries(
                addsv.take(i as int),
            ).push((addsv[i as int].0, ParamV { name: addsv[i as int].0, typ: addsv[i as int].1 })));
        }
        i += 1;
    }
    proof {
        assert(addsv.take(entries.len() as int) =~= addsv);
    }
    m
}

/// Transforms a whole schema into the scope-bound root, or reports the
/// first parse or duplicate-parameter error of the walk.
pub fn transform(source: RootSchema) -> (r: Result<ContextBoundedRoot, TransformerError>)
    requires
        root_methods_valid(source),
    ensures
        r matches Ok(x) ==> root_error(source) is None && ir_matches_root(source, x),
        r matches Err(e) ==> (root_error(source) matches Some(pe) && e@
            == TransformerErrorV::ParserError(pe)),
{
    let (url, bounded_vars): (ContextValue, LinkedHashMap<String, Param>) = match &source.url {
        Some(u) => {
            match parse_expr(u.as_str()) {
                Err(e) => {
                    return Err(TransformerError::ParserError(e));
                },
                Ok((expr, vars)) => (ContextValue::Expr(expr), params_to_map(&vars)),
            }
        },
        None => {
            let url_param = Param::new("url", Some("string".to_owned()));
            let mut m = param_map_new();
            let o = param_map_insert(&mut m, "url".to_owned(), url_param);
            proof {
                assert(param_map_entries(m) =~= seq![
                    ("url"@, ParamV { name: "url"@, typ: Some("string"@) }),
                ]);
            }
            (ContextValue::Expr(Expr::Var("url".to_owned())), m)
        },
    };
    let mut ctx = Context::new(source.klsname.as_str());
    let ghost base = ctx@;
    let mut apisets: Vec<(String, ContextBoundedAPIData)> = Vec::new();
    let ghost cs = source.apisets.0@;
    let n = source.apisets.0.len();
    let mut i: usize = 0;
    while i < n
        invariant
            n == cs.len(),
            i <= n,
            cs == source.apisets.0@,
            children_methods_valid(cs),
            root_error(source) == children_error(cs),
            root_url_matches(source, url, bounded_vars),
            base[0].name == source.klsname@,
            ctx_wf(ctx@),
            base.len() == 1,
            ctx@.len() >= 1,
            ctx@[0].name == base[0].name,
            ctx@[0].parent is None,
            ctx@[0].scope.len() == 0,
            apisets@.len() == i,
            ctx@[0].children.len() == i,
            forall|j: int|
                0 <= j < i ==> {
                    &&& (#[trigger] apisets@[j]).0@ == cs[j].0@
                    &&& ir_matches_data(cs[j].0@, cs[j].1, apisets@[j].1, ctx@, 0)
                    &&& ctx@[0].children[j] == (cs[j].0@, data_context(apisets@[j].1))
                    &&& data_error(cs[j].1) is None
                },
        decreases n - i,
    {
        proof {
            lemma_children_methods_valid_index(cs, i as int);
        }
        let pair = &source.apisets.0[i];
        let ghost ctx_before = ctx@;
        let sub = transform_apiset(pair.0.as_str(), &pair.1, &mut ctx, 0);
        match sub {
            Err(e) => {
                proof {
                    assert forall|j: int| 0 <= j < i implies data_error(
                        (#[trigger] cs[j]).1,
                    ) is None by {
                        assert(apisets@[j].0@ == cs[j].0@);
                    }
                    lemma_children_error_at(cs, i as int);
                }
                return Err(e);
            },
            Ok(child) => {
                proof {
                    assert forall|j: int| 0 <= j < i implies ir_matches_data(
                        cs[j].0@,
                        cs[j].1,
                        (#[trigger] apisets@[j]).1,
                        ctx@,
                        0,
                    ) by {
                        lemma_ir_frame_data(cs[j].0@, cs[j].1, apisets@[j].1, ctx_before, ctx@, 0);
                    }
                }
                apisets.push((pair.0.clone(), child));
            },
        }
        i += 1;
    }
    proof {
        assert forall|j: int| 0 <= j < cs.len() implies data_error((#[trigger] cs[j]).1) is None by {
            assert(apisets@[j].0@ == cs[j].0@);
        }
        lemma_children_error_none(cs);
    }
    Ok(
        ContextBoundedRoot {
            klsname: source.klsname,
            url,
            bounded_vars,
            apisets,
            context: ctx,
        },
    )
}

/// Children source order: the IR children of a transformed node carry
/// exactly the schema's child names, in the schema's order.
pub proof fn lemma_children_source_order(
    cs: Seq<(String, APIData)>,
    xs: Seq<(String, ContextBoundedAPIData)>,
    arena: Seq<CtxNodeV>,
    parent: int,
)
    requires
        ir_children_match(cs, xs, arena, parent),
    ensures
        xs.len() == cs.len(),
        forall|i: int| 0 <= i < cs.len() ==> (#[trigger] xs[i]).0@ == cs[i].0@,
        entry_keys_usize(arena[parent].children) =~= Seq::new(cs.len(), |i: int| cs[i].0@),
{
    assert forall|i: int| 0 <= i < cs.len() implies #[trigger] arena[parent].children[i].0 == cs[
        i
    ].0@ by {
        assert(arena[parent].children[i] == (cs[i].0@, data_context(xs[i].1)));
    }
}

/// The key sequence of a context node's children mapping.
pub open spec fn entry_keys_usize(es: Seq<(Seq<char>, usize)>) -> Seq<Seq<char>> {
    es.map_values(|e: (Seq<char>, usize)| e.0)
}

/// Membership in an entry sequence is membership among its keys.
proof fn lemma_has_key_contains<T>(es: Seq<(Seq<char>, T)>, k: Seq<char>)
    ensures
        has_key(es, k) <==> entry_keys(es).contains(k),
{
    if has_key(es, k) {
        let i = choose|i: int| 0 <= i < es.len() && (#[trigger] es[i]).0 == k;
        assert(entry_keys(es)[i] == k);
    }
    if entry_keys(es).contains(k) {
        let i = choose|i: int| 0 <= i < entry_keys(es).len() && entry_keys(es)[i] == k;
        assert(es[i].0 == k);
    }
}

/// Keys distribute over concatenation of entry sequences.
proof fn lemma_entry_keys_concat<T>(a: Seq<(Seq<char>, T)>, b: Seq<(Seq<char>, T)>)
    ensures
        entry_keys(a + b) =~= entry_keys(a) + entry_keys(b),
{
    assert forall|i: int| 0 <= i < a.len() + b.len() implies entry_keys(a + b)[i] == (entry_keys(a)
        + entry_keys(b))[i] by {
        if i < a.len() {
            assert((a + b)[i] == a[i]);
        } else {
            assert((a + b)[i] == b[i - a.len()]);
        }
    }
}

/// The keys of URL-parameter entries are the parameter names.
proof fn lemma_params_to_entries_keys(ps: Seq<ParamV>)
    ensures
        entry_keys(params_to_entries(ps)) =~= param_names(ps),
{
}

/// Converting declared parameters to bound-variable entries keeps the keys.
proof fn lemma_opts_to_entries_keys(es: Seq<(Seq<char>, Option<Seq<char>>)>)
    ensures
        entry_keys(opts_to_entries(es)) =~= entry_keys(es),
{
}

/// Appending key-disjoint distinct entry lists keeps the keys distinct.
proof fn lemma_distinct_concat<T>(a: Seq<(Seq<char>, T)>, b: Seq<(Seq<char>, T)>)
    requires
        distinct_names(entry_keys(a)),
        distinct_names(entry_keys(b)),
        forall|i: int| 0 <= i < b.len() ==> !has_key(a, (#[trigger] b[i]).0),
    ensures
        distinct_names(entry_keys(a + b)),
{
    lemma_entry_keys_concat(a, b);
    let ks = entry_keys(a) + entry_keys(b);
    assert forall|i: int, j: int| 0 <= i < j < ks.len() implies ks[i] != ks[j] by {
        if j < a.len() {
            assert(ks[i] == entry_keys(a)[i]);
            assert(ks[j] == entry_keys(a)[j]);
        } else if i >= a.len() {
            assert(ks[i] == entry_keys(b)[i - a.len()]);
            assert(ks[j] == entry_keys(b)[j - a.len()]);
        } else {
            assert(ks[i] == entry_keys(a)[i]);
            assert(ks[j] == entry_keys(b)[j - a.len()]);
            assert(ks[j] == b[j - a.len()].0);
            if ks[i] == ks[j] {
                assert(a[i].0 == b[j - a.len()].0);
                assert(has_key(a, b[j - a.len()].0));
            }
        }
    }
    assert(entry_keys(a + b) =~= ks);
}

/// Bound-variable law: for every endpoint of a transformed schema, the set
/// of bound-variable names is exactly the set of variables of its URL
/// expression together with the declared query and body parameter keys, and
/// no name repeats.
pub proof fn lemma_endpoint_bound_vars(
    name: Seq<char>,
    s: APISchema,
    y: ContextBoundedAPI,
    arena: Seq<CtxNodeV>,
    parent: int,
)
    requires
        ir_matches_api(name, s, y, arena, parent),
    ensures
        entry_keys(param_map_entries(y.bounded_vars)).to_set() =~= crate::se_parser::expr_vars(
            y.url@,
        ).union(entry_keys(opt_map_entries(s.params)).to_set()).union(
            entry_keys(opt_map_entries(s.data)).to_set(),
        ),
        distinct_names(entry_keys(param_map_entries(y.bounded_vars))),
{
    let pr = spec_parse_expr(s.url@)->Ok_0;
    let base = params_to_entries(pr.1);
    let psv = opt_map_entries(s.params);
    let dsv = opt_map_entries(s.data);
    crate::se_parser::lemma_parse_expr_vars(s.url@);
    lemma_merge_ok(base, psv);
    let m1 = merge_entries(base, psv)->Ok_0;
    lemma_merge_ok(m1, dsv);
    let m2 = merge_entries(m1, dsv)->Ok_0;
    assert(param_map_entries(y.bounded_vars) == m2);
    assert(m1 == base + opts_to_entries(psv));
    assert(m2 == (base + opts_to_entries(psv)) + opts_to_entries(dsv));
    lemma_entry_keys_concat(base, opts_to_entries(psv));
    lemma_entry_keys_concat(base + opts_to_entries(psv), opts_to_entries(dsv));
    lemma_params_to_entries_keys(pr.1);
    lemma_opts_to_entries_keys(psv);
    lemma_opts_to_entries_keys(dsv);
    let ks = entry_keys(m2);
    assert(ks =~= (param_names(pr.1) + entry_keys(psv)) + entry_keys(dsv));
    assert(crate::se_parser::expr_vars(y.url@) =~= param_names(pr.1).to_set());
    assert forall|x: Seq<char>| #[trigger] ks.to_set().contains(x) implies crate::se_parser::expr_vars(
        y.url@,
    ).union(entry_keys(psv).to_set()).union(entry_keys(dsv).to_set()).contains(x) by {
        let i = choose|i: int| 0 <= i < ks.len() && ks[i] == x;
        if i < pr.1.len() {
            assert(param_names(pr.1)[i] == x);
            assert(param_names(pr.1).contains(x));
        } else if i < pr.1.len() + psv.len() {
            assert(entry_keys(psv)[i - pr.1.len()] == x);
            assert(entry_keys(psv).contains(x));
        } else {
            assert(entry_keys(dsv)[i - pr.1.len() - psv.len()] == x);
            assert(entry_keys(dsv).contains(x));
        }
    }
    assert forall|x: Seq<char>|
        crate::se_parser::expr_vars(y.url@).union(entry_keys(psv).to_set()).union(
            entry_keys(dsv).to_set(),
        ).contains(x) implies #[trigger] ks.to_set().contains(x) by {
        if param_names(pr.1).contains(x) {
            let i = choose|i: int| 0 <= i < param_names(pr.1).len() && param_names(pr.1)[i] == x;
            assert(ks[i] == x);
        } else if entry_keys(psv).contains(x) {
            let i = choose|i: int| 0 <= i < entry_keys(psv).len() && entry_keys(psv)[i] == x;
            assert(ks[pr.1.len() + i] == x);
        } else {
            assert(entry_keys(dsv).contains(x));
            let i = choose|i: int| 0 <= i < entry_keys(dsv).len() && entry_keys(dsv)[i] == x;
            assert(ks[pr.1.len() + psv.len() + i] == x);
        }
    }
    assert(distinct_names(entry_keys(base))) by {
        lemma_params_to_entries_keys(pr.1);
    }
    assert(distinct_names(entry_keys(opts_to_entries(psv)))) by {
        lemma_opts_to_entries_keys(psv);
    }
    assert(distinct_names(entry_keys(opts_to_entries(dsv)))) by {
        lemma_opts_to_entries_keys(dsv);
    }
    assert forall|i: int| 0 <= i < opts_to_entries(psv).len() implies !has_key(
        base,
        (#[trigger] opts_to_entries(psv)[i]).0,
    ) by {
        assert(opts_to_entries(psv)[i].0 == psv[i].0);
        assert(!has_key(base, psv[i].0));
    }
    lemma_distinct_concat(base, opts_to_entries(psv));
    assert forall|i: int| 0 <= i < opts_to_entries(dsv).len() implies !has_key(
        m1,
        (#[trigger] opts_to_entries(dsv)[i]).0,
    ) by {
        assert(opts_to_entries(dsv)[i].0 == dsv[i].0);
        assert(!has_key(m1, dsv[i].0));
    }
    lemma_distinct_concat(m1, opts_to_entries(dsv));
}

/// The single-line report of a transformer error: a kind label and the
/// underlying error's own report.
pub open spec fn spec_transformer_error_message(e: TransformerErrorV) -> Seq<char> {
    match e {
        TransformerErrorV::ContextLookupError(inner) => "Context lookup error: "@
            + crate::context::spec_lookup_error_message(inner),
        TransformerErrorV::ParserError(inner) => "Parser error: "@
            + crate::se_parser::spec_parser_error_message(inner),
    }
}

impl TransformerError {
    /// The single-line report of this error.
    pub fn message(&self) -> (r: String)
        ensures
            r@ == spec_transformer_error_message(self@),
    {
        match self {
            TransformerError::ContextLookupError(inner) => {
                let mut out = String::new();
                out.append("Context lookup error: ");
                let m = inner.message();
                out.append(m.as_str());
                proof {
                    assert(Seq::<char>::empty() + "Context lookup error: "@
                        =~= "Context lookup error: "@);
                }
                out
            },
            TransformerError::ParserError(inner) => {
                let mut out = String::new();
                out.append("Parser error: ");
                let m = inner.message();
                out.append(m.as_str());
                proof {
                    assert(Seq::<char>::empty() + "Parser error: "@ =~= "Parser error: "@);
                }
                out
            },
        }
    }
}

} // verus!
