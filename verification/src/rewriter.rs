//! The target rewriter: folds the scope-bound IR into the JavaScript code
//! model and renders it.  Every function's output text is fixed by an
//! `emit_*` specification; the emitted file is one `import axios` line, the
//! classes of all groups in post-order (so a class appears after the classes
//! it instantiates), and finally the root class as the default export.

use crate::context::ContextValue;
use crate::javascript::{
    spec_gen_assign, spec_gen_class, spec_gen_code, spec_gen_constructor, spec_gen_expr,
    spec_gen_getter, spec_gen_getters, spec_gen_method, spec_gen_methods, spec_gen_names,
    spec_gen_idents, spec_gen_stmt, spec_gen_stmts, ArithOp, Assign, Class, Code, Constructor,
    Gen, GenContext, Getter, Ident, Import, Literal, Method, Stmt,
};
use crate::ordered::param_map_entries;
use crate::se_parser::{ExprV, Member, MemberV, Param, ParamV};
use crate::transformer::{
    api_bound_entries, ir_children_match, ir_matches_api, ir_matches_apiset, ir_matches_data,
    ir_matches_root, root_url_matches, ContextBoundedAPI, ContextBoundedAPIData,
    ContextBoundedAPISet, ContextBoundedRoot, HttpMethod,
};
use linked_hash_map::LinkedHashMap;
use vstd::prelude::*;

verus! {

/// The member name a reference segment compiles to: `_super` for the climb,
/// the member's own name otherwise.
pub open spec fn member_text(m: MemberV) -> Seq<char> {
    match m {
        MemberV::Super => "_super"@,
        MemberV::Member(n) => n,
    }
}

/// The text of a lowered scope reference: `this` followed by one member
/// access per segment.
pub open spec fn emit_ref(ms: Seq<MemberV>) -> Seq<char>
    decreases ms.len(),
{
    if ms.len() == 0 {
        "this"@
    } else {
        emit_ref(ms.drop_last()) + "."@ + member_text(ms.last())
    }
}

/// The text of a lowered schema expression: literals become quoted strings,
/// variables stay variables, references become member chains, and each
/// concatenation becomes a parenthesized `+` (left-associative, mirroring
/// the parser's folding).
pub open spec fn emit_expr(e: ExprV) -> Seq<char>
    decreases e,
{
    match e {
        ExprV::Lit(s) => "\""@ + s + "\""@,
        ExprV::Var(n) => n,
        ExprV::Ref(ms) => emit_ref(ms),
        ExprV::Concat(l, r) => "("@ + emit_expr(*l) + ") + ("@ + emit_expr(*r) + ")"@,
    }
}

/// Bound-variable names joined by `, `.
pub open spec fn emit_names(ns: Seq<Seq<char>>) -> Seq<char>
    decreases ns,
{
    if ns.len() == 0 {
        Seq::empty()
    } else if ns.len() == 1 {
        ns[0]
    } else {
        emit_names(ns.drop_last()) + ", "@ + ns.last()
    }
}

/// The names of bound-variable entries, in insertion order.
pub open spec fn entry_names(es: Seq<(Seq<char>, ParamV)>) -> Seq<Seq<char>> {
    es.map_values(|e: (Seq<char>, ParamV)| e.1.name)
}

/// The statement assigning a value to `this._{name}`: used for constructor
/// parameters.
pub open spec fn emit_priv_assign(name: Seq<char>) -> Seq<char> {
    "this"@ + "."@ + ("_"@ + name) + " = "@ + name + ";"@
}

/// The private-field assignments of the trailing bound variables, each on a
/// new line.
pub open spec fn emit_more_assigns(ns: Seq<Seq<char>>) -> Seq<char>
    decreases ns,
{
    if ns.len() == 0 {
        Seq::empty()
    } else {
        emit_more_assigns(ns.drop_last()) + "\n"@ + emit_priv_assign(ns.last())
    }
}

/// The private-field assignments as a block body (joined by newlines).
pub open spec fn emit_assign_block(ns: Seq<Seq<char>>) -> Seq<char>
    decreases ns,
{
    if ns.len() == 0 {
        Seq::empty()
    } else if ns.len() == 1 {
        emit_priv_assign(ns[0])
    } else {
        emit_assign_block(ns.drop_last()) + "\n"@ + emit_priv_assign(ns.last())
    }
}

/// The root constructor: with bound variables it stores each under
/// `this._{name}`; without any it takes no parameters and assigns the root
/// URL to `this._url`.
pub open spec fn emit_root_ctor(bvs: Seq<(Seq<char>, ParamV)>, url: ExprV) -> Seq<char> {
    if bvs.len() > 0 {
        "constructor("@ + emit_names(entry_names(bvs)) + ") {\n"@ + emit_assign_block(
            entry_names(bvs),
        ) + "\n}"@
    } else {
        "constructor("@ + Seq::<char>::empty() + ") {\n"@ + ("this"@ + "."@ + "_url"@ + " = "@
            + emit_expr(url) + ";"@) + "\n}"@
    }
}

/// A group constructor: a `_super` parameter first, then the group's bound
/// variables; the body stores the parent, computes `this._url`, and stores
/// each bound variable under `this._{name}`.
pub open spec fn emit_apiset_ctor(bvs: Seq<(Seq<char>, ParamV)>, url: ExprV) -> Seq<char> {
    "constructor("@ + emit_names(seq!["_super"@] + entry_names(bvs)) + ") {\n"@ + (("this"@ + "."@
        + "_super"@ + " = "@ + "_super"@ + ";"@) + "\n"@ + ("this"@ + "."@ + "_url"@ + " = "@
        + emit_expr(url) + ";"@) + emit_more_assigns(entry_names(bvs))) + "\n}"@
}

/// The lower-case request tag of a method.
pub open spec fn method_tag(m: HttpMethod) -> Seq<char> {
    match m {
        HttpMethod::GET => "get"@,
        HttpMethod::POST => "post"@,
        HttpMethod::PUT => "put"@,
        HttpMethod::DELETE => "delete"@,
        HttpMethod::HEAD => "head"@,
        HttpMethod::OPTIONS => "options"@,
        HttpMethod::PATCH => "patch"@,
    }
}

/// The entries of a `params` or `data` object: each declared key mapped to
/// the variable of the same parameter.
pub open spec fn emit_var_entries(es: Seq<(Seq<char>, ParamV)>) -> Seq<char>
    decreases es,
{
    if es.len() == 0 {
        Seq::empty()
    } else if es.len() == 1 {
        es[0].0 + ": "@ + es[0].1.name
    } else {
        emit_var_entries(es.drop_last()) + ", "@ + es.last().0 + ": "@ + es.last().1.name
    }
}

/// A `params` or `data` object literal.
pub open spec fn emit_var_object(es: Seq<(Seq<char>, ParamV)>) -> Seq<char> {
    if es.len() == 0 {
        "{}"@
    } else {
        "{ "@ + emit_var_entries(es) + " }"@
    }
}

/// The `axios(config)` call of an endpoint: the config object holds the
/// lower-case method, the lowered URL, then `params` and `data` objects when
/// the endpoint declares them.
pub open spec fn emit_axios_entries(
    url: ExprV,
    m: HttpMethod,
    ps: Seq<(Seq<char>, ParamV)>,
    ds: Seq<(Seq<char>, ParamV)>,
) -> Seq<char> {
    let base = ("method"@ + ": "@ + ("\""@ + method_tag(m) + "\""@)) + ", "@ + ("url"@ + ": "@
        + emit_expr(url));
    if ps.len() > 0 && ds.len() > 0 {
        base + ", "@ + ("params"@ + ": "@ + emit_var_object(ps)) + ", "@ + ("data"@ + ": "@
            + emit_var_object(ds))
    } else if ps.len() > 0 {
        base + ", "@ + ("params"@ + ": "@ + emit_var_object(ps))
    } else if ds.len() > 0 {
        base + ", "@ + ("data"@ + ": "@ + emit_var_object(ds))
    } else {
        base
    }
}

pub open spec fn emit_axios_call(
    url: ExprV,
    m: HttpMethod,
    ps: Seq<(Seq<char>, ParamV)>,
    ds: Seq<(Seq<char>, ParamV)>,
) -> Seq<char> {
    "axios"@ + "("@ + ("{ "@ + emit_axios_entries(url, m, ps, ds) + " }"@) + ")"@
}

/// An endpoint's async method: its bound variables as parameters and a body
/// returning the `axios` call.
pub open spec fn emit_api_method(api: ContextBoundedAPI) -> Seq<char> {
    "async "@ + api.name@ + "("@ + emit_names(entry_names(param_map_entries(api.bounded_vars)))
        + ") {\n"@ + ("return "@ + emit_axios_call(
        api.url@,
        api.method,
        param_map_entries(api.params),
        param_map_entries(api.data),
    ) + ";"@) + "\n}"@
}

/// The getter a parent class gains for a nested group: it instantiates the
/// group's class with the parent instance.
pub open spec fn emit_child_getter(name: Seq<char>) -> Seq<char> {
    "get "@ + name + "() {\n"@ + ("return "@ + ("new "@ + name + "("@ + "this"@ + ")"@) + ";"@)
        + "\n}"@
}

/// The `url` getter of the root class.
pub open spec fn emit_url_getter() -> Seq<char> {
    "get "@ + "url"@ + "() {\n"@ + ("return "@ + ("this"@ + "."@ + "_url"@) + ";"@) + "\n}"@
}

/// The methods a class gains from its endpoint children, in schema order,
/// each followed by a newline.
pub open spec fn emit_methods_children(xs: Seq<(String, ContextBoundedAPIData)>) -> Seq<char>
    decreases xs,
{
    if xs.len() == 0 {
        Seq::empty()
    } else {
        emit_methods_children(xs.drop_last()) + (match xs.last().1 {
            ContextBoundedAPIData::API(a) => emit_api_method(a) + "\n"@,
            ContextBoundedAPIData::APISet(_) => Seq::empty(),
        })
    }
}

/// The getters a class gains from its group children, in schema order, each
/// followed by a newline.
pub open spec fn emit_getters_children(xs: Seq<(String, ContextBoundedAPIData)>) -> Seq<char>
    decreases xs,
{
    if xs.len() == 0 {
        Seq::empty()
    } else {
        emit_getters_children(xs.drop_last()) + (match xs.last().1 {
            ContextBoundedAPIData::API(_) => Seq::empty(),
            ContextBoundedAPIData::APISet(_) => emit_child_getter(xs.last().0@) + "\n"@,
        })
    }
}

/// A group's class: constructor, endpoint methods, then group getters.
pub open spec fn emit_apiset_class(aps: ContextBoundedAPISet) -> Seq<char>
    decreases aps,
{
    "class "@ + aps.name@ + " "@ + Seq::<char>::empty() + "{\n"@ + (emit_apiset_ctor(
        param_map_entries(aps.bounded_vars),
        aps.url@,
    ) + "\n"@) + emit_methods_children(aps.apisets@) + emit_getters_children(aps.apisets@) + "}"@
}

/// The classes a group contributes to the file: its nested groups' classes
/// first, then its own class statement followed by a newline (post-order).
pub open spec fn emit_apiset_contrib(s: ContextBoundedAPISet) -> Seq<char>
    decreases s,
{
    emit_classes_children(s.apisets@) + emit_apiset_class(s) + "\n"@
}

/// The classes a child contributes to the file: none for an endpoint, the
/// group's contribution otherwise.
pub open spec fn emit_classes_data(x: ContextBoundedAPIData) -> Seq<char>
    decreases x,
{
    match x {
        ContextBoundedAPIData::API(_) => Seq::empty(),
        ContextBoundedAPIData::APISet(s) => emit_apiset_contrib(s),
    }
}

/// The classes contributed by a children list, in schema order.
pub open spec fn emit_classes_children(xs: Seq<(String, ContextBoundedAPIData)>) -> Seq<char>
    decreases xs,
{
    if xs.len() == 0 {
        Seq::empty()
    } else {
        emit_classes_children(xs.drop_last()) + emit_classes_data(xs.last().1)
    }
}

/// The root class: constructor, endpoint methods, the `url` getter, then
/// group getters.
pub open spec fn emit_root_class(root: ContextBoundedRoot) -> Seq<char> {
    "class "@ + root.klsname@ + " "@ + Seq::<char>::empty() + "{\n"@ + (emit_root_ctor(
        param_map_entries(root.bounded_vars),
        root.url@,
    ) + "\n"@) + emit_methods_children(root.apisets@) + (emit_url_getter() + "\n"@
        + emit_getters_children(root.apisets@)) + "}"@
}

/// The whole emitted file: the `axios` import, every group's class in
/// post-order, and the root class as default export.
pub open spec fn emit_import_line() -> Seq<char> {
    "import "@ + "axios"@ + " from \""@ + "axios"@ + "\";"@
}

pub open spec fn emit_root(root: ContextBoundedRoot) -> Seq<char> {
    (emit_import_line() + "\n"@) + emit_classes_children(root.apisets@) + (("export default "@
        + emit_root_class(root)) + "\n"@)
}

/// Lowers a reference path to a member chain rooted at `this`.
fn gen_ref(ms: &Vec<Member>) -> (r: crate::javascript::Expr)
    ensures
        spec_gen_expr(r) == emit_ref(ms.deep_view()),
{
    let ghost dv = ms.deep_view();
    let mut expr = crate::javascript::Expr::Var("this".to_owned());
    let mut i: usize = 0;
    proof {
        assert(dv.take(0).len() == 0);
    }
    while i < ms.len()
        invariant
            dv == ms.deep_view(),
            dv.len() == ms.len(),
            i <= ms.len(),
            spec_gen_expr(expr) == emit_ref(dv.take(i as int)),
        decreases ms.len() - i,
    {
        let mtext: String = match &ms[i] {
            Member::Super => "_super".to_owned(),
            Member::Member(n) => n.clone(),
        };
        proof {
            assert(dv[i as int] == ms@[i as int]@);
            assert(mtext@ == member_text(dv[i as int]));
        }
        expr = crate::javascript::Expr::Member {
            base: Box::new(expr),
            member: Ident(mtext),
        };
        proof {
            assert(dv.take(i as int + 1).drop_last() =~= dv.take(i as int));
            assert(dv.take(i as int + 1).last() == dv[i as int]);
        }
        i += 1;
    }
    proof {
        assert(dv.take(ms.len() as int) =~= dv);
    }
    expr
}

/// Lowers a parsed schema expression to a target expression.
fn fold_expr(e: &crate::se_parser::Expr) -> (r: crate::javascript::Expr)
    ensures
        spec_gen_expr(r) == emit_expr(e@),
    decreases *e,
{
    match e {
        crate::se_parser::Expr::Lit(s) => crate::javascript::Expr::Literal(
            Literal::String(s.clone()),
        ),
        crate::se_parser::Expr::Ref(ms) => gen_ref(ms),
        crate::se_parser::Expr::Var(s) => crate::javascript::Expr::Var(s.clone()),
        crate::se_parser::Expr::Concat(l, r) => {
            let jl = fold_expr(l);
            let jr = fold_expr(r);
            let out = crate::javascript::Expr::Arith {
                op: ArithOp("+".to_owned()),
                l: Box::new(jl),
                r: Box::new(jr),
            };
            proof {
                reveal_strlit(") ");
                reveal_strlit("+");
                reveal_strlit(" (");
                reveal_strlit(") + (");
                assert(") "@ + "+"@ + " ("@ =~= ") + ("@);
                assert(spec_gen_expr(out) =~= emit_expr(e@));
            }
            out
        },
    }
}

/// Lowers a context value.
fn gen_context_value(v: &ContextValue) -> (r: crate::javascript::Expr)
    ensures
        spec_gen_expr(r) == emit_expr(v@),
{
    match v {
        ContextValue::Expr(e) => fold_expr(e),
    }
}

/// The lower-case request tag of a method.
fn method_tag_str(m: &HttpMethod) -> (r: &'static str)
    ensures
        r@ == method_tag(*m),
{
    match m {
        HttpMethod::GET => "get",
        HttpMethod::POST => "post",
        HttpMethod::PUT => "put",
        HttpMethod::DELETE => "delete",
        HttpMethod::HEAD => "head",
        HttpMethod::OPTIONS => "options",
        HttpMethod::PATCH => "patch",
    }
}

/// The `params` or `data` object of an endpoint call: each declared key
/// mapped to the variable of its parameter.
fn gen_var_object(m: &LinkedHashMap<String, Param>) -> (r: crate::javascript::Expr)
    ensures
        spec_gen_expr(r) == emit_var_object(param_map_entries(*m)),
{
    let ghost es = param_map_entries(*m);
    let entries = crate::ordered::param_map_entries_vec(m);
    let mut obj: Vec<(String, crate::javascript::Expr)> = Vec::new();
    let mut i: usize = 0;
    proof {
        assert(obj@.len() == 0);
    }
    while i < entries.len()
        invariant
            es == param_map_entries(*m),
            entries.deep_view() == es,
            es.len() == entries.len(),
            i <= entries.len(),
            obj@.len() == i,
            crate::javascript::spec_gen_object_entries(obj@) == emit_var_entries(es.take(i as int)),
        decreases entries.len() - i,
    {
        proof {
            assert(es[i as int] == entries.deep_view()[i as int]);
            assert(entries.deep_view()[i as int] == (entries@[i as int].0@,
            entries@[i as int].1@));
        }
        let k = entries[i].0.clone();
        let name = entries[i].1.name.clone();
        proof {
            assert(k@ == es[i as int].0);
            assert(name@ == es[i as int].1.name);
        }
        let ghost prev = obj@;
        obj.push((k, crate::javascript::Expr::Var(name)));
        proof {
            assert(obj@.drop_last() =~= prev);
            assert(obj@.last().0@ == es[i as int].0);
            assert(crate::javascript::spec_gen_expr(obj@.last().1) == es[i as int].1.name);
            assert(es.take(i as int + 1).drop_last() =~= es.take(i as int));
            assert(es.take(i as int + 1).last() == es[i as int]);
            assert(crate::javascript::spec_gen_object_entries(obj@) =~= emit_var_entries(
                es.take(i as int + 1),
            ));
        }
        i += 1;
    }
    proof {
        assert(es.take(entries.len() as int) =~= es);
    }
    crate::javascript::Expr::Object(obj)
}

/// The statement `this.{field} = {value};`.
fn this_field_assign(field: String, value: crate::javascript::Expr) -> (r: Stmt)
    ensures
        spec_gen_stmt(r) == "this"@ + "."@ + field@ + " = "@ + spec_gen_expr(value) + ";"@,
{
    let this_e = crate::javascript::Expr::Var("this".to_owned());
    proof {
        assert(spec_gen_expr(this_e) == "this"@);
    }
    let ghost f = field@;
    let assignee = crate::javascript::Expr::Member { base: Box::new(this_e), member: Ident(field) };
    proof {
        assert(spec_gen_expr(assignee) == "this"@ + "."@ + f);
    }
    let ghost v = value;
    let a = Assign { typ: None, assignee: assignee, expr: value };
    proof {
        assert(spec_gen_assign(a) == spec_gen_expr(a.assignee) + " = "@ + spec_gen_expr(a.expr));
        assert(spec_gen_expr(a.expr) == spec_gen_expr(v));
    }
    let r = Stmt::Assign(a);
    proof {
        assert(spec_gen_stmt(r) == spec_gen_assign(a) + ";"@);
    }
    r
}

/// The `axios(config)` call of an endpoint.
fn gen_axios_call(
    url: &ContextValue,
    method: &HttpMethod,
    params: &LinkedHashMap<String, Param>,
    data: &LinkedHashMap<String, Param>,
) -> (r: crate::javascript::Expr)
    ensures
        spec_gen_expr(r) == emit_axios_call(
            url@,
            *method,
            param_map_entries(*params),
            param_map_entries(*data),
        ),
{
    let ghost ps = param_map_entries(*params);
    let ghost ds = param_map_entries(*data);
    let url_expr = gen_context_value(url);
    let tag = method_tag_str(method);
    let mut config: Vec<(String, crate::javascript::Expr)> = Vec::new();
    let lit = crate::javascript::Expr::Literal(Literal::String(tag.to_owned()));
    proof {
        assert(spec_gen_expr(lit) == "\""@ + method_tag(*method) + "\""@);
    }
    config.push(("method".to_owned(), lit));
    let ghost e0 = "method"@ + ": "@ + ("\""@ + method_tag(*method) + "\""@);
    proof {
        assert(config@.len() == 1);
        assert(crate::javascript::spec_gen_object_entries(config@) == e0);
    }
    let ghost c1 = config@;
    config.push(("url".to_owned(), url_expr));
    let ghost base = e0 + ", "@ + ("url"@ + ": "@ + emit_expr(url@));
    proof {
        assert(config@.drop_last() =~= c1);
        assert(crate::javascript::spec_gen_object_entries(config@) == base);
    }
    let pl = crate::ordered::param_map_len(params);
    if pl > 0 {
        let ghost c2 = config@;
        let pobj = gen_var_object(params);
        config.push(("params".to_owned(), pobj));
        proof {
            assert(config@.drop_last() =~= c2);
            assert(crate::javascript::spec_gen_object_entries(config@) == base + ", "@ + (
            "params"@ + ": "@ + emit_var_object(ps)));
        }
    }
    let dl = crate::ordered::param_map_len(data);
    if dl > 0 {
        let ghost c3 = config@;
        let dobj = gen_var_object(data);
        config.push(("data".to_owned(), dobj));
        proof {
            assert(config@.drop_last() =~= c3);
        }
    }
    proof {
        assert(crate::javascript::spec_gen_object_entries(config@) == emit_axios_entries(
            url@,
            *method,
            ps,
            ds,
        ));
        assert(config@.len() >= 2);
    }
    let obj = crate::javascript::Expr::Object(config);
    let mut args: Vec<crate::javascript::Expr> = Vec::new();
    args.push(obj);
    let out = crate::javascript::Expr::FuncCall {
        func: Box::new(crate::javascript::Expr::Var("axios".to_owned())),
        args,
    };
    proof {
        reveal_with_fuel(crate::javascript::spec_gen_expr, 3);
        assert(args@.drop_last() =~= Seq::<crate::javascript::Expr>::empty());
        assert(crate::javascript::spec_gen_args(args@) == spec_gen_expr(args@[0]));
        assert(spec_gen_expr(out) == emit_axios_call(url@, *method, ps, ds));
    }
    out
}

/// The constructor of the root class.
fn root_constructor(root: &ContextBoundedRoot) -> (r: Option<Constructor>)
    ensures
        r matches Some(c) && spec_gen_constructor(c) == emit_root_ctor(
            param_map_entries(root.bounded_vars),
            root.url@,
        ),
{
    let ghost bvs = param_map_entries(root.bounded_vars);
    let ghost names = entry_names(bvs);
    let n = crate::ordered::param_map_len(&root.bounded_vars);
    if n > 0 {
        let entries = crate::ordered::param_map_entries_vec(&root.bounded_vars);
        let mut params: Vec<Ident> = Vec::new();
        let mut stmts: Vec<Stmt> = Vec::new();
        let mut i: usize = 0;
        proof {
            assert(spec_gen_idents(params@) =~= emit_names(names.take(0)));
            assert(spec_gen_stmts(stmts@) =~= emit_assign_block(names.take(0)));
        }
        while i < entries.len()
            invariant
                bvs == param_map_entries(root.bounded_vars),
                names == entry_names(bvs),
                entries.deep_view() == bvs,
                bvs.len() == entries.len(),
                names.len() == bvs.len(),
                i <= entries.len(),
                params@.len() == i,
                stmts@.len() == i,
                spec_gen_idents(params@) == emit_names(names.take(i as int)),
                spec_gen_stmts(stmts@) == emit_assign_block(names.take(i as int)),
            decreases entries.len() - i,
        {
            proof {
                assert(bvs[i as int] == entries.deep_view()[i as int]);
                assert(names[i as int] == bvs[i as int].1.name);
            }
            let name = entries[i].1.name.clone();
            let mut field = String::new();
            field.append("_");
            field.append(name.as_str());
            proof {
                assert(name@ == names[i as int]);
                assert(field@ =~= "_"@ + names[i as int]);
            }
            let ghost prev_params = params@;
            let ghost prev_stmts = stmts@;
            params.push(Ident(name.clone()));
            let rhs = crate::javascript::Expr::Var(name);
            proof {
                assert(spec_gen_expr(rhs) == names[i as int]);
            }
            stmts.push(this_field_assign(field, rhs));
            proof {
                assert(params@.drop_last() =~= prev_params);
                assert(stmts@.drop_last() =~= prev_stmts);
                assert(names.take(i as int + 1).drop_last() =~= names.take(i as int));
                assert(names.take(i as int + 1).last() == names[i as int]);
                assert(spec_gen_stmt(stmts@.last()) == emit_priv_assign(names[i as int]));
                assert(spec_gen_idents(params@) == emit_names(names.take(i as int + 1)));
                assert(spec_gen_stmts(stmts@) == emit_assign_block(names.take(i as int + 1)));
            }
            i += 1;
        }
        proof {
            assert(names.take(entries.len() as int) =~= names);
        }
        let c = Constructor { params, stmts };
        proof {
            assert(spec_gen_constructor(c) == emit_root_ctor(bvs, root.url@));
        }
        Some(c)
    } else {
        let e = gen_context_value(&root.url);
        let mut stmts: Vec<Stmt> = Vec::new();
        stmts.push(this_field_assign("_url".to_owned(), e));
        let params: Vec<Ident> = Vec::new();
        let c = Constructor { params, stmts };
        proof {
            assert(stmts@.drop_last() =~= Seq::<Stmt>::empty());
            assert(spec_gen_idents(c.params@) =~= Seq::<char>::empty());
            assert(spec_gen_stmts(c.stmts@) == spec_gen_stmt(stmts@[0]));
            assert(spec_gen_constructor(c) == emit_root_ctor(bvs, root.url@));
        }
        Some(c)
    }
}

/// The constructor of a group class: the parent instance first, then the
/// group's bound variables.
fn apiset_constructor(apiset: &ContextBoundedAPISet) -> (r: Option<Constructor>)
    ensures
        r matches Some(c) && spec_gen_constructor(c) == emit_apiset_ctor(
            param_map_entries(apiset.bounded_vars),
            apiset.url@,
        ),
{
    let ghost bvs = param_map_entries(apiset.bounded_vars);
    let ghost names = entry_names(bvs);
    let ghost allnames = seq!["_super"@] + names;
    let e = gen_context_value(&apiset.url);
    let mut params: Vec<Ident> = Vec::new();
    params.push(Ident("_super".to_owned()));
    let mut stmts: Vec<Stmt> = Vec::new();
    let sup_var = crate::javascript::Expr::Var("_super".to_owned());
    proof {
        assert(spec_gen_expr(sup_var) == "_super"@);
    }
    stmts.push(this_field_assign("_super".to_owned(), sup_var));
    stmts.push(this_field_assign("_url".to_owned(), e));
    let ghost lead = ("this"@ + "."@ + "_super"@ + " = "@ + "_super"@ + ";"@) + "\n"@ + ("this"@
        + "."@ + "_url"@ + " = "@ + emit_expr(apiset.url@) + ";"@);
    proof {
        assert(params@.len() == 1);
        assert(spec_gen_idents(params@) == "_super"@);
        assert(allnames.take(1) =~= seq!["_super"@]);
        assert(emit_names(allnames.take(1)) == "_super"@);
        assert(stmts@.len() == 2);
        assert(stmts@.drop_last()[0] == stmts@[0]);
        assert(stmts@.drop_last().len() == 1);
        assert(spec_gen_stmts(stmts@.drop_last()) == spec_gen_stmt(stmts@[0]));
        assert(spec_gen_stmts(stmts@) == lead);
    }
    let entries = crate::ordered::param_map_entries_vec(&apiset.bounded_vars);
    let mut i: usize = 0;
    proof {
        assert(emit_more_assigns(names.take(0)) =~= Seq::<char>::empty());
        assert(lead + emit_more_assigns(names.take(0)) =~= lead);
    }
    while i < entries.len()
        invariant
            bvs == param_map_entries(apiset.bounded_vars),
            names == entry_names(bvs),
            allnames == seq!["_super"@] + names,
            lead == ("this"@ + "."@ + "_super"@ + " = "@ + "_super"@ + ";"@) + "\n"@ + ("this"@
                + "."@ + "_url"@ + " = "@ + emit_expr(apiset.url@) + ";"@),
            entries.deep_view() == bvs,
            bvs.len() == entries.len(),
            names.len() == bvs.len(),
            i <= entries.len(),
            params@.len() == i + 1,
            stmts@.len() == i + 2,
            spec_gen_idents(params@) == emit_names(allnames.take(i as int + 1)),
            spec_gen_stmts(stmts@) == lead + emit_more_assigns(names.take(i as int)),
        decreases entries.len() - i,
    {
        proof {
            assert(bvs[i as int] == entries.deep_view()[i as int]);
            assert(names[i as int] == bvs[i as int].1.name);
        }
        let name = entries[i].1.name.clone();
        let mut field = String::new();
        field.append("_");
        field.append(name.as_str());
        proof {
            assert(name@ == names[i as int]);
            assert(field@ =~= "_"@ + names[i as int]);
        }
        let ghost prev_params = params@;
        let ghost prev_stmts = stmts@;
        params.push(Ident(name.clone()));
        let rhs = crate::javascript::Expr::Var(name);
        proof {
            assert(spec_gen_expr(rhs) == names[i as int]);
        }
        stmts.push(this_field_assign(field, rhs));
        proof {
            assert(params@.drop_last() =~= prev_params);
            assert(stmts@.drop_last() =~= prev_stmts);
            assert(allnames.take(i as int + 2).drop_last() =~= allnames.take(i as int + 1));
            assert(allnames.take(i as int + 2).last() == names[i as int]);
            assert(names.take(i as int + 1).drop_last() =~= names.take(i as int));
            assert(names.take(i as int + 1).last() == names[i as int]);
            assert(spec_gen_stmt(stmts@.last()) == emit_priv_assign(names[i as int]));
            assert(spec_gen_idents(params@) == emit_names(allnames.take(i as int + 2)));
            assert(spec_gen_stmts(stmts@) == lead + emit_more_assigns(names.take(i as int + 1)));
        }
        i += 1;
    }
    proof {
        assert(names.take(entries.len() as int) =~= names);
        assert(allnames.take(entries.len() as int + 1) =~= allnames);
    }
    let c = Constructor { params, stmts };
    proof {
        assert(spec_gen_constructor(c) == emit_apiset_ctor(bvs, apiset.url@));
    }
    Some(c)
}

/// Adds an endpoint's async method to a class.
fn gen_api(api: &ContextBoundedAPI, kls: &mut Class)
    ensures
        final(kls).ident == old(kls).ident,
        final(kls).extends == old(kls).extends,
        final(kls).constructor == old(kls).constructor,
        final(kls).getters == old(kls).getters,
        final(kls).methods@.len() == old(kls).methods@.len() + 1,
        final(kls).methods@.drop_last() == old(kls).methods@,
        spec_gen_method(final(kls).methods@.last()) == emit_api_method(*api),
{
    let ghost bvs = param_map_entries(api.bounded_vars);
    let ghost names = entry_names(bvs);
    let entries = crate::ordered::param_map_entries_vec(&api.bounded_vars);
    let mut params: Vec<String> = Vec::new();
    let mut i: usize = 0;
    proof {
        assert(spec_gen_names(params@) =~= emit_names(names.take(0)));
    }
    while i < entries.len()
        invariant
            bvs == param_map_entries(api.bounded_vars),
            names == entry_names(bvs),
            entries.deep_view() == bvs,
            bvs.len() == entries.len(),
            names.len() == bvs.len(),
            i <= entries.len(),
            params@.len() == i,
            spec_gen_names(params@) == emit_names(names.take(i as int)),
        decreases entries.len() - i,
    {
        proof {
            assert(bvs[i as int] == entries.deep_view()[i as int]);
            assert(names[i as int] == bvs[i as int].1.name);
        }
        let ghost prev = params@;
        params.push(entries[i].1.name.clone());
        proof {
            assert(params@.drop_last() =~= prev);
            assert(names.take(i as int + 1).drop_last() =~= names.take(i as int));
            assert(names.take(i as int + 1).last() == names[i as int]);
            assert(spec_gen_names(params@) == emit_names(names.take(i as int + 1)));
        }
        i += 1;
    }
    proof {
        assert(names.take(entries.len() as int) =~= names);
    }
    let call = gen_axios_call(&api.url, &api.method, &api.params, &api.data);
    let mut stmts: Vec<Stmt> = Vec::new();
    stmts.push(Stmt::Return(call));
    let m = Method { ident: Ident(api.name.clone()), params, stmts, is_async: true };
    proof {
        assert(m.stmts@.drop_last() =~= Seq::<Stmt>::empty());
        assert(spec_gen_method(m) == emit_api_method(*api));
    }
    kls.methods.push(m);
}

/// The `url` getter of the root class.
fn url_getter() -> (r: Getter)
    ensures
        spec_gen_getter(r) == emit_url_getter(),
{
    let this_e = crate::javascript::Expr::Var("this".to_owned());
    proof {
        assert(spec_gen_expr(this_e) == "this"@);
    }
    let m = crate::javascript::Expr::Member {
        base: Box::new(this_e),
        member: Ident("_url".to_owned()),
    };
    proof {
        assert(spec_gen_expr(m) == "this"@ + "."@ + "_url"@);
    }
    let mut stmts: Vec<Stmt> = Vec::new();
    stmts.push(Stmt::Return(m));
    let g = Getter { ident: Ident("url".to_owned()), stmts };
    proof {
        assert(g.stmts@.drop_last() =~= Seq::<Stmt>::empty());
        assert(spec_gen_getter(g) == emit_url_getter());
    }
    g
}

/// The getter instantiating a nested group's class with the parent instance.
fn child_getter(name: &String) -> (r: Getter)
    ensures
        spec_gen_getter(r) == emit_child_getter(name@),
{
    let this_arg = crate::javascript::Expr::Var("this".to_owned());
    proof {
        assert(spec_gen_expr(this_arg) == "this"@);
    }
    let mut args: Vec<crate::javascript::Expr> = Vec::new();
    args.push(this_arg);
    proof {
        assert(args@.drop_last() =~= Seq::<crate::javascript::Expr>::empty());
        assert(crate::javascript::spec_gen_args(args@) == "this"@);
    }
    let ctor = crate::javascript::Expr::Var(name.clone());
    proof {
        assert(spec_gen_expr(ctor) == name@);
    }
    let inst = crate::javascript::Expr::Instantiate { constructor: Box::new(ctor), args };
    proof {
        assert(spec_gen_expr(inst) == "new "@ + name@ + "("@ + "this"@ + ")"@);
    }
    let mut stmts: Vec<Stmt> = Vec::new();
    stmts.push(Stmt::Return(inst));
    let g = Getter { ident: Ident(name.clone()), stmts };
    proof {
        assert(g.stmts@.drop_last() =~= Seq::<Stmt>::empty());
        assert(spec_gen_getter(g) =~= emit_child_getter(name@));
    }
    g
}

/// Emits a group: first the classes of its nested groups, then its own
/// class, appended to the file's statements.
#[verifier::rlimit(50)]
fn gen_apiset(apiset: &ContextBoundedAPISet, code: &mut Code)
    ensures
        spec_gen_code(final(code).stmts@) == spec_gen_code(old(code).stmts@) + emit_apiset_contrib(
            *apiset,
        ),
    decreases *apiset,
{
    let ghost old_stmts = old(code).stmts@;
    let ghost xs = apiset.apisets@;
    let ghost bvs = param_map_entries(apiset.bounded_vars);
    let ctor = apiset_constructor(apiset);
    let mut kls = Class {
        ident: Ident(apiset.name.clone()),
        extends: None,
        constructor: ctor,
        methods: Vec::new(),
        getters: Vec::new(),
    };
    let mut i: usize = 0;
    proof {
        assert(spec_gen_methods(kls.methods@) =~= emit_methods_children(xs.take(0)));
        assert(spec_gen_getters(kls.getters@) =~= emit_getters_children(xs.take(0)));
        assert(spec_gen_code(code.stmts@) + emit_classes_children(xs.take(0)) =~= spec_gen_code(
            code.stmts@,
        ));
    }
    while i < apiset.apisets.len()
        invariant
            old_stmts == old(code).stmts@,
            xs == apiset.apisets@,
            bvs == param_map_entries(apiset.bounded_vars),
            i <= xs.len(),
            xs.len() == apiset.apisets.len(),
            kls.ident.0@ == apiset.name@,
            kls.extends is None,
            kls.constructor matches Some(c) && spec_gen_constructor(c) == emit_apiset_ctor(
                bvs,
                apiset.url@,
            ),
            spec_gen_methods(kls.methods@) == emit_methods_children(xs.take(i as int)),
            spec_gen_getters(kls.getters@) == emit_getters_children(xs.take(i as int)),
            spec_gen_code(code.stmts@) == spec_gen_code(old_stmts) + emit_classes_children(
                xs.take(i as int),
            ),
        decreases xs.len() - i,
    {
        proof {
            assert(xs.take(i as int + 1).drop_last() =~= xs.take(i as int));
            assert(xs.take(i as int + 1).last() == xs[i as int]);
        }
        let pair = &apiset.apisets[i];
        match &pair.1 {
            ContextBoundedAPIData::API(a) => {
                proof {
                    assert(xs[i as int].1 == pair.1);
                    assert(xs[i as int].1 matches ContextBoundedAPIData::API(aa) && aa == *a);
                }
                gen_api(a, &mut kls);
                proof {
                    assert(emit_methods_children(xs.take(i as int + 1)) == emit_methods_children(
                        xs.take(i as int + 1).drop_last(),
                    ) + (emit_api_method(*a) + "
"@));
                    assert(spec_gen_methods(kls.methods@) == emit_methods_children(
                        xs.take(i as int + 1),
                    ));
                    assert(emit_getters_children(xs.take(i as int + 1)) =~= emit_getters_children(
                        xs.take(i as int),
                    ) + Seq::<char>::empty());
                    assert(emit_getters_children(xs.take(i as int + 1)) =~= spec_gen_getters(
                        kls.getters@,
                    ));
                    assert(emit_classes_data(xs[i as int].1) =~= Seq::<char>::empty());
                    assert(emit_classes_children(xs.take(i as int + 1)) =~= emit_classes_children(
                        xs.take(i as int),
                    ) + Seq::<char>::empty());
                    assert(spec_gen_code(code.stmts@) == spec_gen_code(old_stmts)
                        + emit_classes_children(xs.take(i as int + 1)));
                }
            },
            ContextBoundedAPIData::APISet(sub) => {
                proof {
                    assert(xs[i as int].1 == pair.1);
                    assert(xs[i as int].1 matches ContextBoundedAPIData::APISet(ss) && ss == *sub);
                    assert(decreases_to!(*apiset => apiset.apisets));
                    assert(decreases_to!(apiset.apisets => apiset.apisets@));
                    assert(decreases_to!(apiset.apisets@ => apiset.apisets@[i as int]));
                    assert(decreases_to!(apiset.apisets@[i as int] => apiset.apisets@[i as int].1));
                    assert(decreases_to!(apiset.apisets@[i as int].1 => *sub));
                }
                gen_apiset(sub, code);
                let g = child_getter(&pair.0);
                let ghost prev_getters = kls.getters@;
                kls.getters.push(g);
                proof {
                    assert(kls.getters@.drop_last() =~= prev_getters);
                    assert(spec_gen_getters(kls.getters@) == emit_getters_children(
                        xs.take(i as int),
                    ) + spec_gen_getter(g) + "\n"@);
                    assert(emit_getters_children(xs.take(i as int + 1)) =~= emit_getters_children(
                        xs.take(i as int),
                    ) + spec_gen_getter(g) + "\n"@);
                    assert(emit_methods_children(xs.take(i as int + 1)) =~= emit_methods_children(
                        xs.take(i as int),
                    ) + Seq::<char>::empty());
                    assert(spec_gen_methods(kls.methods@) == emit_methods_children(
                        xs.take(i as int + 1),
                    ));
                    assert(spec_gen_code(code.stmts@) =~= spec_gen_code(old_stmts) + (
                    emit_classes_children(xs.take(i as int)) + emit_apiset_contrib(*sub)));
                    assert(emit_classes_data(xs[i as int].1) == emit_apiset_contrib(*sub));
                    assert(emit_classes_children(xs.take(i as int + 1)) =~= emit_classes_children(
                        xs.take(i as int),
                    ) + emit_apiset_contrib(*sub));
                    assert(spec_gen_code(code.stmts@) =~= spec_gen_code(old_stmts)
                        + emit_classes_children(xs.take(i as int + 1)));
                }
            },
        }
        i += 1;
    }
    proof {
        assert(xs.take(xs.len() as int) =~= xs);
    }
    let ghost before_class = code.stmts@;
    code.stmts.push(Stmt::Class(kls));
    proof {
        assert(code.stmts@.drop_last() =~= before_class);
        assert(spec_gen_stmt(code.stmts@.last()) == spec_gen_class(code.stmts@.last()->Class_0));
        assert(spec_gen_class(code.stmts@.last()->Class_0) == emit_apiset_class(*apiset));
        assert(spec_gen_code(code.stmts@) =~= spec_gen_code(old_stmts) + emit_apiset_contrib(
            *apiset,
        ));
    }
}

/// Emits every group's class and then the root class as the default export.
#[verifier::rlimit(50)]
fn gen_root(root: &ContextBoundedRoot, code: &mut Code)
    ensures
        spec_gen_code(final(code).stmts@) == spec_gen_code(old(code).stmts@)
            + emit_classes_children(root.apisets@) + ("export default "@ + emit_root_class(*root)
            + "\n"@),
{
    let ghost old_stmts = old(code).stmts@;
    let ghost xs = root.apisets@;
    let ghost bvs = param_map_entries(root.bounded_vars);
    let ctor = root_constructor(root);
    let ug = url_getter();
    let mut getters: Vec<Getter> = Vec::new();
    getters.push(ug);
    let mut kls = Class {
        ident: Ident(root.klsname.clone()),
        extends: None,
        constructor: ctor,
        methods: Vec::new(),
        getters,
    };
    let mut i: usize = 0;
    proof {
        assert(kls.getters@.drop_last() =~= Seq::<Getter>::empty());
        assert(kls.getters@.len() == 1);
        assert(kls.getters@.last() == ug);
        assert(spec_gen_getters(kls.getters@) == spec_gen_getters(kls.getters@.drop_last())
            + spec_gen_getter(ug) + "\n"@);
        assert(Seq::<char>::empty() + spec_gen_getter(ug) =~= spec_gen_getter(ug));
        assert(spec_gen_getters(kls.getters@) =~= (emit_url_getter() + "\n"@)
            + emit_getters_children(xs.take(0)));
        assert(spec_gen_methods(kls.methods@) =~= emit_methods_children(xs.take(0)));
        assert(spec_gen_code(code.stmts@) + emit_classes_children(xs.take(0)) =~= spec_gen_code(
            code.stmts@,
        ));
    }
    while i < root.apisets.len()
        invariant
            old_stmts == old(code).stmts@,
            xs == root.apisets@,
            bvs == param_map_entries(root.bounded_vars),
            i <= xs.len(),
            xs.len() == root.apisets.len(),
            kls.ident.0@ == root.klsname@,
            kls.extends is None,
            kls.constructor matches Some(c) && spec_gen_constructor(c) == emit_root_ctor(
                bvs,
                root.url@,
            ),
            spec_gen_methods(kls.methods@) == emit_methods_children(xs.take(i as int)),
            spec_gen_getters(kls.getters@) == (emit_url_getter() + "\n"@) + emit_getters_children(
                xs.take(i as int),
            ),
            spec_gen_code(code.stmts@) == spec_gen_code(old_stmts) + emit_classes_children(
                xs.take(i as int),
            ),
        decreases xs.len() - i,
    {
        proof {
            assert(xs.take(i as int + 1).drop_last() =~= xs.take(i as int));
            assert(xs.take(i as int + 1).last() == xs[i as int]);
        }
        let pair = &root.apisets[i];
        match &pair.1 {
            ContextBoundedAPIData::API(a) => {
                proof {
                    assert(xs[i as int].1 == pair.1);
                    assert(xs[i as int].1 matches ContextBoundedAPIData::API(aa) && aa == *a);
                }
                gen_api(a, &mut kls);
                proof {
                    assert(emit_methods_children(xs.take(i as int + 1)) == emit_methods_children(
                        xs.take(i as int + 1).drop_last(),
                    ) + (emit_api_method(*a) + "\n"@));
                    assert(spec_gen_methods(kls.methods@) == emit_methods_children(
                        xs.take(i as int + 1),
                    ));
                    assert(emit_getters_children(xs.take(i as int + 1)) =~= emit_getters_children(
                        xs.take(i as int),
                    ) + Seq::<char>::empty());
                    assert(spec_gen_getters(kls.getters@) == (emit_url_getter() + "\n"@)
                        + emit_getters_children(xs.take(i as int + 1)));
                    assert(emit_classes_data(xs[i as int].1) =~= Seq::<char>::empty());
                    assert(emit_classes_children(xs.take(i as int + 1)) =~= emit_classes_children(
                        xs.take(i as int),
                    ) + Seq::<char>::empty());
                    assert(spec_gen_code(code.stmts@) == spec_gen_code(old_stmts)
                        + emit_classes_children(xs.take(i as int + 1)));
                }
            },
            ContextBoundedAPIData::APISet(sub) => {
                proof {
                    assert(xs[i as int].1 == pair.1);
                    assert(xs[i as int].1 matches ContextBoundedAPIData::APISet(ss) && ss == *sub);
                }
                gen_apiset(sub, code);
                let g = child_getter(&pair.0);
                let ghost prev_getters = kls.getters@;
                kls.getters.push(g);
                proof {
                    assert(kls.getters@.drop_last() =~= prev_getters);
                    assert(spec_gen_getters(kls.getters@) == ((emit_url_getter() + "\n"@)
                        + emit_getters_children(xs.take(i as int))) + spec_gen_getter(g) + "\n"@);
                    assert(emit_getters_children(xs.take(i as int + 1)) =~= emit_getters_children(
                        xs.take(i as int),
                    ) + spec_gen_getter(g) + "\n"@);
                    assert(spec_gen_getters(kls.getters@) =~= (emit_url_getter() + "\n"@)
                        + emit_getters_children(xs.take(i as int + 1)));
                    assert(emit_methods_children(xs.take(i as int + 1)) =~= emit_methods_children(
                        xs.take(i as int),
                    ) + Seq::<char>::empty());
                    assert(spec_gen_methods(kls.methods@) == emit_methods_children(
                        xs.take(i as int + 1),
                    ));
                    assert(spec_gen_code(code.stmts@) =~= spec_gen_code(old_stmts) + (
                    emit_classes_children(xs.take(i as int)) + emit_apiset_contrib(*sub)));
                    assert(emit_classes_data(xs[i as int].1) == emit_apiset_contrib(*sub));
                    assert(emit_classes_children(xs.take(i as int + 1)) =~= emit_classes_children(
                        xs.take(i as int),
                    ) + emit_apiset_contrib(*sub));
                    assert(spec_gen_code(code.stmts@) =~= spec_gen_code(old_stmts)
                        + emit_classes_children(xs.take(i as int + 1)));
                }
            },
        }
        i += 1;
    }
    proof {
        assert(xs.take(xs.len() as int) =~= xs);
    }
    let ghost before_export = code.stmts@;
    code.stmts.push(Stmt::Export { is_default: true, stmt: Box::new(Stmt::Class(kls)) });
    proof {
        assert(code.stmts@.drop_last() =~= before_export);
        let last = code.stmts@.last();
        assert(spec_gen_stmt(last) == "export default "@ + spec_gen_stmt(*last->Export_stmt));
        assert(spec_gen_stmt(*last->Export_stmt) == spec_gen_class(
            (*last->Export_stmt)->Class_0,
        ));
        assert(spec_gen_class((*last->Export_stmt)->Class_0) == emit_root_class(*root));
        assert(spec_gen_code(code.stmts@) =~= spec_gen_code(old_stmts) + emit_classes_children(
            root.apisets@,
        ) + ("export default "@ + emit_root_class(*root) + "\n"@));
    }
}

/// Renders the whole emitted file for a scope-bound root: the `axios`
/// import, every group's class in post-order, and the root class as the
/// default export.  The result is exactly `emit_root`, so the emission is a
/// function of the IR alone.
pub fn gen(root: &ContextBoundedRoot, gen_ctx: &GenContext) -> (r: String)
    ensures
        r@ == emit_root(*root),
{
    let imp = Stmt::Import(
        Import { def: Some(Ident("axios".to_owned())), imps: None, path: "axios".to_owned() },
    );
    proof {
        assert(crate::javascript::spec_import_parts(imp->Import_0) == "axios"@);
        assert(spec_gen_stmt(imp) == emit_import_line());
    }
    let mut stmts: Vec<Stmt> = Vec::new();
    stmts.push(imp);
    proof {
        assert(stmts@.drop_last() =~= Seq::<Stmt>::empty());
        assert(stmts@.last() == imp);
        assert(spec_gen_code(stmts@) == spec_gen_code(stmts@.drop_last()) + spec_gen_stmt(imp)
            + "\n"@);
        assert(spec_gen_code(stmts@) =~= emit_import_line() + "\n"@);
    }
    let mut code = Code { stmts };
    gen_root(root, &mut code);
    let r = code.gen(gen_ctx);
    proof {
        assert(r@ =~= emit_root(*root));
    }
    r
}

/// Emitting the same scope-bound root twice yields byte-identical output:
/// both runs equal the specified emission text.
pub proof fn lemma_emission_stable(
    root1: ContextBoundedRoot,
    root2: ContextBoundedRoot,
    r1: String,
    r2: String,
)
    requires
        root1 == root2,
        r1@ == emit_root(root1),
        r2@ == emit_root(root2),
    ensures
        r1@ == r2@,
{
}

/// Two scope-bound endpoints of the same schema endpoint emit the same
/// method text.
pub proof fn lemma_emit_api_congruent(
    name: Seq<char>,
    s: crate::schema::APISchema,
    y1: ContextBoundedAPI,
    y2: ContextBoundedAPI,
    arena1: Seq<crate::context::CtxNodeV>,
    arena2: Seq<crate::context::CtxNodeV>,
    p1: int,
    p2: int,
)
    requires
        ir_matches_api(name, s, y1, arena1, p1),
        ir_matches_api(name, s, y2, arena2, p2),
    ensures
        emit_api_method(y1) == emit_api_method(y2),
{
    assert(param_map_entries(y1.bounded_vars) == api_bound_entries(s)->Ok_0);
    assert(param_map_entries(y2.bounded_vars) == api_bound_entries(s)->Ok_0);
}

/// Two scope-bound groups of the same schema group emit the same classes.
pub proof fn lemma_emit_apiset_congruent(
    name: Seq<char>,
    s: crate::schema::APISetSchema,
    y1: ContextBoundedAPISet,
    y2: ContextBoundedAPISet,
    arena1: Seq<crate::context::CtxNodeV>,
    arena2: Seq<crate::context::CtxNodeV>,
    p1: int,
    p2: int,
)
    requires
        ir_matches_apiset(name, s, y1, arena1, p1),
        ir_matches_apiset(name, s, y2, arena2, p2),
    ensures
        emit_apiset_class(y1) == emit_apiset_class(y2),
        emit_apiset_contrib(y1) == emit_apiset_contrib(y2),
    decreases s, 0int,
{
    assert(decreases_to!(s => s.apisets));
    assert(decreases_to!(s.apisets => s.apisets.0));
    assert(decreases_to!(s.apisets.0 => s.apisets.0@));
    lemma_emit_children_congruent(
        s.apisets.0@,
        y1.apisets@,
        y2.apisets@,
        arena1,
        arena2,
        y1.context as int,
        y2.context as int,
        s.apisets.0@.len() as int,
    );
    assert(y1.apisets@.take(s.apisets.0@.len() as int) =~= y1.apisets@);
    assert(y2.apisets@.take(s.apisets.0@.len() as int) =~= y2.apisets@);
}

/// Two scope-bound children lists of the same schema children emit the same
/// methods, getters, and classes, prefix by prefix.
pub proof fn lemma_emit_children_congruent(
    cs: Seq<(String, crate::schema::APIData)>,
    xs1: Seq<(String, ContextBoundedAPIData)>,
    xs2: Seq<(String, ContextBoundedAPIData)>,
    arena1: Seq<crate::context::CtxNodeV>,
    arena2: Seq<crate::context::CtxNodeV>,
    p1: int,
    p2: int,
    n: int,
)
    requires
        xs1.len() == cs.len(),
        xs2.len() == cs.len(),
        0 <= n <= cs.len(),
        forall|i: int|
            0 <= i < cs.len() ==> (#[trigger] xs1[i]).0@ == cs[i].0@ && ir_matches_data(
                cs[i].0@,
                cs[i].1,
                xs1[i].1,
                arena1,
                p1,
            ),
        forall|i: int|
            0 <= i < cs.len() ==> (#[trigger] xs2[i]).0@ == cs[i].0@ && ir_matches_data(
                cs[i].0@,
                cs[i].1,
                xs2[i].1,
                arena2,
                p2,
            ),
    ensures
        emit_methods_children(xs1.take(n)) == emit_methods_children(xs2.take(n)),
        emit_getters_children(xs1.take(n)) == emit_getters_children(xs2.take(n)),
        emit_classes_children(xs1.take(n)) == emit_classes_children(xs2.take(n)),
    decreases cs, n,
{
    if n == 0 {
        assert(xs1.take(0) =~= Seq::<(String, ContextBoundedAPIData)>::empty());
        assert(xs2.take(0) =~= Seq::<(String, ContextBoundedAPIData)>::empty());
    } else {
        lemma_emit_children_congruent(cs, xs1, xs2, arena1, arena2, p1, p2, n - 1);
        assert(xs1.take(n).drop_last() =~= xs1.take(n - 1));
        assert(xs2.take(n).drop_last() =~= xs2.take(n - 1));
        assert(xs1.take(n).last() == xs1[n - 1]);
        assert(xs2.take(n).last() == xs2[n - 1]);
        assert(ir_matches_data(cs[n - 1].0@, cs[n - 1].1, xs1[n - 1].1, arena1, p1));
        assert(ir_matches_data(cs[n - 1].0@, cs[n - 1].1, xs2[n - 1].1, arena2, p2));
        match cs[n - 1].1 {
            crate::schema::APIData::API(a) => {
                let z1 = xs1[n - 1].1->API_0;
                let z2 = xs2[n - 1].1->API_0;
                lemma_emit_api_congruent(cs[n - 1].0@, a, z1, z2, arena1, arena2, p1, p2);
                assert(emit_classes_data(xs1[n - 1].1) =~= Seq::<char>::empty());
                assert(emit_classes_data(xs2[n - 1].1) =~= Seq::<char>::empty());
                assert(emit_methods_children(xs1.take(n)) == emit_methods_children(
                    xs1.take(n - 1),
                ) + (emit_api_method(z1) + "\n"@));
                assert(emit_methods_children(xs2.take(n)) == emit_methods_children(
                    xs2.take(n - 1),
                ) + (emit_api_method(z2) + "\n"@));
            },
            crate::schema::APIData::APISet(g) => {
                assert(decreases_to!(cs => cs[n - 1]));
                assert(decreases_to!(cs[n - 1] => cs[n - 1].1));
                assert(decreases_to!(cs[n - 1].1 => g));
                let z1 = xs1[n - 1].1->APISet_0;
                let z2 = xs2[n - 1].1->APISet_0;
                lemma_emit_apiset_congruent(
                    cs[n - 1].0@,
                    g,
                    z1,
                    z2,
                    arena1,
                    arena2,
                    p1,
                    p2,
                );
                assert(emit_classes_data(xs1[n - 1].1) == emit_apiset_contrib(z1));
                assert(emit_classes_data(xs2[n - 1].1) == emit_apiset_contrib(z2));
                assert(xs1[n - 1].0@ == cs[n - 1].0@);
                assert(xs2[n - 1].0@ == cs[n - 1].0@);
                assert(emit_getters_children(xs1.take(n)) == emit_getters_children(
                    xs1.take(n - 1),
                ) + (emit_child_getter(cs[n - 1].0@) + "\n"@));
                assert(emit_getters_children(xs2.take(n)) == emit_getters_children(
                    xs2.take(n - 1),
                ) + (emit_child_getter(cs[n - 1].0@) + "\n"@));
            },
        }
    }
}

/// Output stability: the core is deterministic end to end.  Any two
/// transforms of the same schema emit byte-identical source text.
pub proof fn lemma_pipeline_deterministic(
    s: crate::schema::RootSchema,
    x1: ContextBoundedRoot,
    x2: ContextBoundedRoot,
)
    requires
        ir_matches_root(s, x1),
        ir_matches_root(s, x2),
    ensures
        emit_root(x1) == emit_root(x2),
{
    let cs = s.apisets.0@;
    assert(ir_children_match(cs, x1.apisets@, x1.context@, 0));
    assert(ir_children_match(cs, x2.apisets@, x2.context@, 0));
    lemma_emit_children_congruent(
        cs,
        x1.apisets@,
        x2.apisets@,
        x1.context@,
        x2.context@,
        0,
        0,
        cs.len() as int,
    );
    assert(x1.apisets@.take(cs.len() as int) =~= x1.apisets@);
    assert(x2.apisets@.take(cs.len() as int) =~= x2.apisets@);
    assert(root_url_matches(s, x1.url, x1.bounded_vars));
    assert(root_url_matches(s, x2.url, x2.bounded_vars));
    match s.url {
        Some(u) => {
            assert(x1.url@ == x2.url@);
            assert(param_map_entries(x1.bounded_vars) == param_map_entries(x2.bounded_vars));
        },
        None => {
            assert(x1.url@ == x2.url@);
            assert(param_map_entries(x1.bounded_vars) == param_map_entries(x2.bounded_vars));
        },
    }
}

} // verus!
