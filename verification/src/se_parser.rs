//! Parser for the expression mini-language embedded in schema string fields:
//! literal text interleaved with `${path.segments}` scope references and
//! `<name:type>` parameter bindings, with `\c` escaping any character.
//!
//! Every parsing function carries an exact functional specification
//! (`spec_parse_expr` and its helpers); positions in errors are absolute
//! 0-based character offsets into the original input.

use vstd::prelude::*;

verus! {

/// One segment of a scope reference: the reserved `!super` climb, or a member
/// name.
#[derive(Debug, PartialEq, Clone)]
pub enum Member {
    Super,
    Member(String),
}

/// A parsed string expression.
#[derive(Debug, PartialEq)]
pub enum Expr {
    Lit(String),
    Concat(Box<Expr>, Box<Expr>),
    Ref(Vec<Member>),
    Var(String),
}

/// A declared parameter: name plus optional type tag.
#[derive(Debug, PartialEq, Clone)]
pub struct Param {
    pub name: String,
    pub typ: Option<String>,
}

/// How the parser can fail.
#[derive(Debug, PartialEq)]
pub enum ParserError {
    EmptyExpr,
    UnexpectedToken(String, usize),
    UnexpectedEOF,
    DuplicateParam(String),
}

/// Mathematical counterpart of [`Member`].
pub enum MemberV {
    Super,
    Member(Seq<char>),
}

/// Mathematical counterpart of [`Expr`].
pub enum ExprV {
    Lit(Seq<char>),
    Concat(Box<ExprV>, Box<ExprV>),
    Ref(Seq<MemberV>),
    Var(Seq<char>),
}

/// Mathematical counterpart of [`Param`].
pub struct ParamV {
    pub name: Seq<char>,
    pub typ: Option<Seq<char>>,
}

/// Mathematical counterpart of [`ParserError`].
pub enum ParserErrorV {
    EmptyExpr,
    UnexpectedToken(Seq<char>, nat),
    UnexpectedEOF,
    DuplicateParam(Seq<char>),
}

impl View for Member {
    type V = MemberV;

    open spec fn view(&self) -> MemberV {
        match self {
            Member::Super => MemberV::Super,
            Member::Member(s) => MemberV::Member(s@),
        }
    }
}

impl DeepView for Member {
    type V = MemberV;

    open spec fn deep_view(&self) -> MemberV {
        self.view()
    }
}

impl View for Expr {
    type V = ExprV;

    open spec fn view(&self) -> ExprV
        decreases self,
    {
        match self {
            Expr::Lit(s) => ExprV::Lit(s@),
            Expr::Concat(l, r) => ExprV::Concat(Box::new((**l)@), Box::new((**r)@)),
            Expr::Ref(ms) => ExprV::Ref(ms.deep_view()),
            Expr::Var(s) => ExprV::Var(s@),
        }
    }
}

impl DeepView for Expr {
    type V = ExprV;

    open spec fn deep_view(&self) -> ExprV {
        self.view()
    }
}

impl View for Param {
    type V = ParamV;

    open spec fn view(&self) -> ParamV {
        ParamV { name: self.name@, typ: self.typ.deep_view() }
    }
}

impl DeepView for Param {
    type V = ParamV;

    open spec fn deep_view(&self) -> ParamV {
        self.view()
    }
}

impl View for ParserError {
    type V = ParserErrorV;

    open spec fn view(&self) -> ParserErrorV {
        match self {
            ParserError::EmptyExpr => ParserErrorV::EmptyExpr,
            ParserError::UnexpectedToken(s, p) => ParserErrorV::UnexpectedToken(s@, *p as nat),
            ParserError::UnexpectedEOF => ParserErrorV::UnexpectedEOF,
            ParserError::DuplicateParam(s) => ParserErrorV::DuplicateParam(s@),
        }
    }
}

impl Param {
    /// Builds a parameter from a borrowed name.
    pub fn new(name: &str, typ: Option<String>) -> (r: Param)
        ensures
            r@ == (ParamV { name: name@, typ: typ.deep_view() }),
    {
        Param { name: name.to_owned(), typ }
    }
}

/// `!super` is the reserved climb-to-parent segment; everything else names a
/// member.
pub open spec fn spec_to_member(s: Seq<char>) -> MemberV {
    if s == "!super"@ {
        MemberV::Super
    } else {
        MemberV::Member(s)
    }
}

/// Reference body after `${`: identifiers separated by `.`, closed by `}`.
/// `idents` and `curr` accumulate finished segments and the pending one.
pub open spec fn spec_ref_body(s: Seq<char>, i: nat, idents: Seq<MemberV>, curr: Seq<char>) -> Result<
    (ExprV, nat),
    ParserErrorV,
>
    decreases s.len() - i,
{
    if i >= s.len() {
        Err(ParserErrorV::UnexpectedEOF)
    } else {
        let c = s[i as int];
        if c == '\\' {
            Err(ParserErrorV::UnexpectedToken(seq![c], i))
        } else if c == '}' {
            if curr.len() == 0 {
                Err(ParserErrorV::UnexpectedToken(seq![c], i))
            } else {
                Ok((ExprV::Ref(idents.push(spec_to_member(curr))), (i + 1) as nat))
            }
        } else if c == '.' {
            if curr.len() == 0 {
                Err(ParserErrorV::UnexpectedToken(seq![c], i))
            } else {
                spec_ref_body(s, (i + 1) as nat, idents.push(spec_to_member(curr)), Seq::empty())
            }
        } else {
            spec_ref_body(s, (i + 1) as nat, idents, curr.push(c))
        }
    }
}

/// A scope reference starting at `pos`, which must hold the opening `{`.
pub open spec fn spec_parse_ref(s: Seq<char>, pos: nat) -> Result<(ExprV, nat), ParserErrorV> {
    if pos >= s.len() {
        Err(ParserErrorV::UnexpectedEOF)
    } else if s[pos as int] != '{' {
        Err(ParserErrorV::UnexpectedToken(seq![s[pos as int]], pos))
    } else {
        spec_ref_body(s, (pos + 1) as nat, Seq::empty(), Seq::empty())
    }
}

/// A successful reference parse always advances past `pos` and never beyond
/// the input's end.
proof fn lemma_ref_body_pos(s: Seq<char>, i: nat, idents: Seq<MemberV>, curr: Seq<char>)
    ensures
        spec_ref_body(s, i, idents, curr) matches Ok(r) ==> i < r.1 <= s.len(),
    decreases s.len() - i,
{
    if i < s.len() {
        let c = s[i as int];
        if c == '\\' || c == '}' {
        } else if c == '.' {
            if curr.len() > 0 {
                lemma_ref_body_pos(s, (i + 1) as nat, idents.push(spec_to_member(curr)), Seq::empty());
            }
        } else {
            lemma_ref_body_pos(s, (i + 1) as nat, idents, curr.push(c));
        }
    }
}

/// Bound on the position returned by [`spec_parse_ref`].
pub proof fn lemma_parse_ref_pos(s: Seq<char>, pos: nat)
    ensures
        spec_parse_ref(s, pos) matches Ok(r) ==> pos < r.1 <= s.len(),
{
    if pos < s.len() && s[pos as int] == '{' {
        lemma_ref_body_pos(s, (pos + 1) as nat, Seq::empty(), Seq::empty());
    }
}

/// Parameter body after `<`: a name, optionally `:` and a type, closed by
/// `>`.  Returns the name, the collected type text, whether the name part
/// was still active at the close, and the position after `>`.
pub open spec fn spec_param_body(
    s: Seq<char>,
    i: nat,
    var: Seq<char>,
    typ: Seq<char>,
    in_var: bool,
) -> Result<(Seq<char>, Seq<char>, bool, nat), ParserErrorV>
    decreases s.len() - i,
{
    if i >= s.len() {
        Err(ParserErrorV::UnexpectedEOF)
    } else {
        let c = s[i as int];
        if c == '>' {
            if var.len() == 0 {
                Err(ParserErrorV::UnexpectedToken(seq![c], i))
            } else {
                Ok((var, typ, in_var, (i + 1) as nat))
            }
        } else if c == ':' {
            if var.len() == 0 || !in_var {
                Err(ParserErrorV::UnexpectedToken(seq![c], i))
            } else {
                spec_param_body(s, (i + 1) as nat, var, typ, false)
            }
        } else if in_var {
            spec_param_body(s, (i + 1) as nat, var.push(c), typ, true)
        } else {
            spec_param_body(s, (i + 1) as nat, var, typ.push(c), false)
        }
    }
}

/// A parameter binding starting right after the `<`.  A declared-but-empty
/// type (`<name:>`) cannot terminate and reads as end of input.
pub open spec fn spec_parse_param(s: Seq<char>, pos: nat) -> Result<
    (ExprV, ParamV, nat),
    ParserErrorV,
> {
    match spec_param_body(s, pos, Seq::empty(), Seq::empty(), true) {
        Err(e) => Err(e),
        Ok((var, typ, in_var, p)) => if !in_var && typ.len() == 0 {
            Err(ParserErrorV::UnexpectedEOF)
        } else {
            Ok(
                (
                    ExprV::Var(var),
                    ParamV {
                        name: var,
                        typ: if typ.len() == 0 {
                            None
                        } else {
                            Some(typ)
                        },
                    },
                    p,
                ),
            )
        },
    }
}

/// A successful parameter parse always advances past `pos` and never beyond
/// the input's end.
proof fn lemma_param_body_pos(s: Seq<char>, i: nat, var: Seq<char>, typ: Seq<char>, in_var: bool)
    ensures
        spec_param_body(s, i, var, typ, in_var) matches Ok(r) ==> i < r.3 <= s.len(),
    decreases s.len() - i,
{
    if i < s.len() {
        let c = s[i as int];
        if c == '>' {
        } else if c == ':' {
            if var.len() > 0 && in_var {
                lemma_param_body_pos(s, (i + 1) as nat, var, typ, false);
            }
        } else if in_var {
            lemma_param_body_pos(s, (i + 1) as nat, var.push(c), typ, true);
        } else {
            lemma_param_body_pos(s, (i + 1) as nat, var, typ.push(c), false);
        }
    }
}

/// Bound on the position returned by [`spec_parse_param`].
pub proof fn lemma_parse_param_pos(s: Seq<char>, pos: nat)
    ensures
        spec_parse_param(s, pos) matches Ok(r) ==> pos < r.2 <= s.len(),
{
    lemma_param_body_pos(s, pos, Seq::empty(), Seq::empty(), true);
}

/// The names of a parameter list, in order.
pub open spec fn param_names(ps: Seq<ParamV>) -> Seq<Seq<char>> {
    ps.map_values(|p: ParamV| p.name)
}

/// Left-associative folding of adjacent segments into nested `Concat`s.
pub open spec fn spec_fold_from(acc: ExprV, rest: Seq<ExprV>) -> ExprV
    decreases rest.len(),
{
    if rest.len() == 0 {
        acc
    } else {
        spec_fold_from(ExprV::Concat(Box::new(acc), Box::new(rest[0])), rest.drop_first())
    }
}

/// The `Concat` tree of a non-empty segment list: `(((e1,e2),e3),…,ek)`.
pub open spec fn spec_fold_concat(es: Seq<ExprV>) -> ExprV {
    spec_fold_from(es[0], es.drop_first())
}

/// The top-level scanning state machine.  `i` is the current offset,
/// `exprs`/`params` the finished segments and declared parameters, `curr`
/// the pending literal text.
pub open spec fn spec_parse_loop(
    s: Seq<char>,
    i: nat,
    exprs: Seq<ExprV>,
    params: Seq<ParamV>,
    curr: Seq<char>,
) -> Result<(Seq<ExprV>, Seq<ParamV>), ParserErrorV>
    decreases s.len() - i,
{
    if i >= s.len() {
        Ok(
            (
                if curr.len() == 0 {
                    exprs
                } else {
                    exprs.push(ExprV::Lit(curr))
                },
                params,
            ),
        )
    } else {
        let c = s[i as int];
        let flushed = if curr.len() == 0 {
            exprs
        } else {
            exprs.push(ExprV::Lit(curr))
        };
        if c == '$' {
            match spec_parse_ref(s, (i + 1) as nat) {
                Err(e) => Err(e),
                Ok((e, p)) => {
                    proof {
                        lemma_parse_ref_pos(s, (i + 1) as nat);
                    }
                    spec_parse_loop(s, p, flushed.push(e), params, Seq::empty())
                },
            }
        } else if c == '<' {
            match spec_parse_param(s, (i + 1) as nat) {
                Err(e) => Err(e),
                Ok((e, prm, p)) => if param_names(params).contains(prm.name) {
                    Err(ParserErrorV::DuplicateParam(prm.name))
                } else {
                    proof {
                        lemma_parse_param_pos(s, (i + 1) as nat);
                    }
                    spec_parse_loop(s, p, flushed.push(e), params.push(prm), Seq::empty())
                },
            }
        } else if c == '\\' {
            if i + 1 >= s.len() {
                Err(ParserErrorV::UnexpectedEOF)
            } else {
                spec_parse_loop(s, (i + 2) as nat, exprs, params, curr.push(s[i as int + 1]))
            }
        } else {
            spec_parse_loop(s, (i + 1) as nat, exprs, params, curr.push(c))
        }
    }
}

/// The whole parse of one schema string: the folded expression and the
/// declared parameters, or the first error.
pub open spec fn spec_parse_expr(s: Seq<char>) -> Result<(ExprV, Seq<ParamV>), ParserErrorV> {
    match spec_parse_loop(s, 0, Seq::empty(), Seq::empty(), Seq::empty()) {
        Err(e) => Err(e),
        Ok((exprs, params)) => if exprs.len() == 0 {
            Err(ParserErrorV::EmptyExpr)
        } else {
            Ok((spec_fold_concat(exprs), params))
        },
    }
}

/// The view of a reference-parse result.
pub open spec fn ref_result_view(r: Result<(Expr, usize), ParserError>) -> Result<
    (ExprV, nat),
    ParserErrorV,
> {
    match r {
        Ok((e, p)) => Ok((e@, p as nat)),
        Err(e) => Err(e@),
    }
}

/// The view of a parameter-parse result.
pub open spec fn param_result_view(r: Result<(Expr, Param, usize), ParserError>) -> Result<
    (ExprV, ParamV, nat),
    ParserErrorV,
> {
    match r {
        Ok((e, prm, p)) => Ok((e@, prm@, p as nat)),
        Err(e) => Err(e@),
    }
}

/// The view of a whole-expression parse result.
pub open spec fn expr_result_view(r: Result<(Expr, Vec<Param>), ParserError>) -> Result<
    (ExprV, Seq<ParamV>),
    ParserErrorV,
> {
    match r {
        Ok((e, ps)) => Ok((e@, ps.deep_view())),
        Err(e) => Err(e@),
    }
}

/// Maps an identifier to its reference segment.
pub fn ident_to_member(s: &str) -> (r: Member)
    ensures
        r@ == spec_to_member(s@),
{
    if crate::text::str_eq(s, "!super") {
        Member::Super
    } else {
        Member::Member(s.to_owned())
    }
}

/// Parses a scope reference; `s[pos]` must be the opening `{`, and the
/// returned position is the offset just after the closing `}`.
pub fn parse_ref(s: &str, pos: usize) -> (r: Result<(Expr, usize), ParserError>)
    ensures
        ref_result_view(r) == spec_parse_ref(s@, pos as nat),
{
    let n = s.unicode_len();
    if pos >= n {
        return Err(ParserError::UnexpectedEOF);
    }
    let c0 = s.get_char(pos);
    if c0 != '{' {
        return Err(ParserError::UnexpectedToken(crate::text::char_string(c0), pos));
    }
    let mut idents: Vec<Member> = Vec::new();
    let mut curr = String::new();
    let mut i: usize = pos + 1;
    proof {
        assert(idents.deep_view() =~= Seq::<MemberV>::empty());
    }
    loop
        invariant
            n == s@.len(),
            pos < n,
            pos < i <= n,
            spec_ref_body(s@, i as nat, idents.deep_view(), curr@) == spec_parse_ref(
                s@,
                pos as nat,
            ),
        decreases n - i,
    {
        if i >= n {
            return Err(ParserError::UnexpectedEOF);
        }
        let c = s.get_char(i);
        if c == '\\' {
            return Err(ParserError::UnexpectedToken(crate::text::char_string(c), i));
        } else if c == '}' {
            if curr.unicode_len() == 0 {
                return Err(ParserError::UnexpectedToken(crate::text::char_string(c), i));
            } else {
                let ghost old_ids = idents.deep_view();
                let m = ident_to_member(curr.as_str());
                idents.push(m);
                proof {
                    assert(idents.deep_view() =~= old_ids.push(spec_to_member(curr@)));
                }
                return Ok((Expr::Ref(idents), i + 1));
            }
        } else if c == '.' {
            if curr.unicode_len() == 0 {
                return Err(ParserError::UnexpectedToken(crate::text::char_string(c), i));
            } else {
                let ghost old_ids = idents.deep_view();
                let ghost old_curr = curr@;
                let m = ident_to_member(curr.as_str());
                idents.push(m);
                curr = String::new();
                proof {
                    assert(idents.deep_view() =~= old_ids.push(spec_to_member(old_curr)));
                    assert(spec_ref_body(s@, (i + 1) as nat, idents.deep_view(), curr@)
                        == spec_ref_body(s@, i as nat, old_ids, old_curr));
                }
            }
        } else {
            let ghost old_curr = curr@;
            crate::text::push_char(&mut curr, c);
            proof {
                assert(spec_ref_body(s@, (i + 1) as nat, idents.deep_view(), curr@)
                    == spec_ref_body(s@, i as nat, idents.deep_view(), old_curr));
            }
        }
        i += 1;
    }
}

/// Parses a parameter binding, starting just after the `<`; the returned
/// position is the offset just after the closing `>`.
pub fn parse_param(s: &str, pos: usize) -> (r: Result<(Expr, Param, usize), ParserError>)
    ensures
        param_result_view(r) == spec_parse_param(s@, pos as nat),
{
    let n = s.unicode_len();
    let mut var = String::new();
    let mut typ = String::new();
    let mut in_var = true;
    let mut i: usize = pos;
    loop
        invariant
            n == s@.len(),
            pos <= i,
            i <= n || i == pos,
            spec_param_body(s@, i as nat, var@, typ@, in_var) == spec_param_body(
                s@,
                pos as nat,
                Seq::empty(),
                Seq::empty(),
                true,
            ),
        decreases n - i,
    {
        if i >= n {
            return Err(ParserError::UnexpectedEOF);
        }
        let c = s.get_char(i);
        if c == '>' {
            if var.unicode_len() == 0 {
                return Err(ParserError::UnexpectedToken(crate::text::char_string(c), i));
            }
            if !in_var && typ.unicode_len() == 0 {
                return Err(ParserError::UnexpectedEOF);
            }
            let name = var.clone();
            let typo = if typ.unicode_len() == 0 {
                None
            } else {
                Some(typ)
            };
            return Ok((Expr::Var(name), Param { name: var, typ: typo }, i + 1));
        } else if c == ':' {
            if var.unicode_len() == 0 || !in_var {
                return Err(ParserError::UnexpectedToken(crate::text::char_string(c), i));
            }
            in_var = false;
            proof {
                assert(spec_param_body(s@, (i + 1) as nat, var@, typ@, false) == spec_param_body(
                    s@,
                    i as nat,
                    var@,
                    typ@,
                    true,
                ));
            }
        } else if in_var {
            let ghost old_var = var@;
            crate::text::push_char(&mut var, c);
            proof {
                assert(spec_param_body(s@, (i + 1) as nat, var@, typ@, true) == spec_param_body(
                    s@,
                    i as nat,
                    old_var,
                    typ@,
                    true,
                ));
            }
        } else {
            let ghost old_typ = typ@;
            crate::text::push_char(&mut typ, c);
            proof {
                assert(spec_param_body(s@, (i + 1) as nat, var@, typ@, false) == spec_param_body(
                    s@,
                    i as nat,
                    var@,
                    old_typ,
                    false,
                ));
            }
        }
        i += 1;
    }
}

/// Folds a segment list into the left-associative `Concat` tree; an empty
/// list is the `EmptyExpr` error.
pub fn collect_exprs(exprs: Vec<Expr>) -> (r: Result<Expr, ParserError>)
    ensures
        match r {
            Ok(e) => exprs.deep_view().len() > 0 && e@ == spec_fold_concat(exprs.deep_view()),
            Err(pe) => exprs.deep_view().len() == 0 && pe@ == ParserErrorV::EmptyExpr,
        },
{
    let ghost all = exprs.deep_view();
    let mut rest = exprs;
    if rest.len() == 0 {
        proof {
            assert(all.len() == 0);
        }
        return Err(ParserError::EmptyExpr);
    }
    let mut result = rest.remove(0);
    proof {
        assert(rest.deep_view() =~= all.drop_first());
    }
    while rest.len() > 0
        invariant
            all.len() > 0,
            spec_fold_from(result@, rest.deep_view()) == spec_fold_concat(all),
        decreases rest.len(),
    {
        let ghost old_rest = rest.deep_view();
        let nxt = rest.remove(0);
        result = Expr::Concat(Box::new(result), Box::new(nxt));
        proof {
            assert(rest.deep_view() =~= old_rest.drop_first());
        }
    }
    proof {
        assert(rest.deep_view() =~= Seq::<ExprV>::empty());
    }
    Ok(result)
}

/// Whether `name` is already declared in `params`.
fn params_contain(params: &Vec<Param>, name: &str) -> (r: bool)
    ensures
        r == param_names(params.deep_view()).contains(name@),
{
    let ghost dv = params.deep_view();
    let mut k: usize = 0;
    while k < params.len()
        invariant
            dv == params.deep_view(),
            dv.len() == params.len(),
            k <= params.len(),
            forall|j: int| 0 <= j < k ==> dv[j].name != name@,
        decreases params.len() - k,
    {
        proof {
            assert(dv[k as int] == params[k as int]@);
        }
        if crate::text::str_eq(params[k].name.as_str(), name) {
            proof {
                assert(param_names(dv)[k as int] == name@);
            }
            return true;
        }
        k += 1;
    }
    proof {
        assert forall|j: int| 0 <= j < param_names(dv).len() implies param_names(dv)[j] != name@ by {
            assert(param_names(dv)[j] == dv[j].name);
        }
        if param_names(dv).contains(name@) {
            let j = choose|j: int| 0 <= j < param_names(dv).len() && param_names(dv)[j] == name@;
            assert(false);
        }
    }
    false
}

/// Parses a whole schema string into an expression and its declared
/// parameters.  Positions in errors are offsets into `s`; a parameter name
/// declared twice in the same string is a `DuplicateParam` error.
pub fn parse_expr(s: &str) -> (r: Result<(Expr, Vec<Param>), ParserError>)
    ensures
        expr_result_view(r) == spec_parse_expr(s@),
        r matches Ok(t) ==> expr_vars(t.0@) == names_of(t.1.deep_view()),
        r matches Ok(t) ==> distinct_names(param_names(t.1.deep_view())),
{
    proof {
        lemma_parse_expr_vars(s@);
    }
    let n = s.unicode_len();
    let mut exprs: Vec<Expr> = Vec::new();
    let mut params: Vec<Param> = Vec::new();
    let mut curr = String::new();
    let mut i: usize = 0;
    proof {
        assert(exprs.deep_view() =~= Seq::<ExprV>::empty());
        assert(params.deep_view() =~= Seq::<ParamV>::empty());
    }
    while i < n
        invariant
            n == s@.len(),
            i <= n,
            spec_parse_loop(s@, i as nat, exprs.deep_view(), params.deep_view(), curr@)
                == spec_parse_loop(
                s@,
                0,
                Seq::<ExprV>::empty(),
                Seq::<ParamV>::empty(),
                Seq::<char>::empty(),
            ),
        decreases n - i,
    {
        let c = s.get_char(i);
        if c == '$' {
            let ghost old_exprs = exprs.deep_view();
            let ghost old_curr = curr@;
            if curr.unicode_len() != 0 {
                exprs.push(Expr::Lit(curr));
                curr = String::new();
            }
            proof {
                if old_curr.len() == 0 {
                    assert(exprs.deep_view() =~= old_exprs);
                } else {
                    assert(exprs.deep_view() =~= old_exprs.push(ExprV::Lit(old_curr)));
                }
                assert(curr@ =~= Seq::<char>::empty());
            }
            match parse_ref(s, i + 1) {
                Err(e) => {
                    return Err(e);
                },
                Ok((expr, p)) => {
                    proof {
                        lemma_parse_ref_pos(s@, (i + 1) as nat);
                    }
                    let ghost flushed = exprs.deep_view();
                    exprs.push(expr);
                    proof {
                        assert(exprs.deep_view() =~= flushed.push(expr@));
                    }
                    i = p;
                },
            }
        } else if c == '<' {
            let ghost old_exprs = exprs.deep_view();
            let ghost old_curr = curr@;
            if curr.unicode_len() != 0 {
                exprs.push(Expr::Lit(curr));
                curr = String::new();
            }
            proof {
                if old_curr.len() == 0 {
                    assert(exprs.deep_view() =~= old_exprs);
                } else {
                    assert(exprs.deep_view() =~= old_exprs.push(ExprV::Lit(old_curr)));
                }
                assert(curr@ =~= Seq::<char>::empty());
            }
            match parse_param(s, i + 1) {
                Err(e) => {
                    return Err(e);
                },
                Ok((expr, param, p)) => {
                    if params_contain(&params, param.name.as_str()) {
                        return Err(ParserError::DuplicateParam(param.name));
                    }
                    proof {
                        lemma_parse_param_pos(s@, (i + 1) as nat);
                    }
                    let ghost flushed = exprs.deep_view();
                    let ghost old_params = params.deep_view();
                    exprs.push(expr);
                    params.push(param);
                    proof {
                        assert(exprs.deep_view() =~= flushed.push(expr@));
                        assert(params.deep_view() =~= old_params.push(param@));
                    }
                    i = p;
                },
            }
        } else if c == '\\' {
            if i + 1 >= n {
                return Err(ParserError::UnexpectedEOF);
            }
            let c2 = s.get_char(i + 1);
            let ghost old_curr = curr@;
            crate::text::push_char(&mut curr, c2);
            proof {
                assert(spec_parse_loop(
                    s@,
                    (i + 2) as nat,
                    exprs.deep_view(),
                    params.deep_view(),
                    curr@,
                ) == spec_parse_loop(
                    s@,
                    i as nat,
                    exprs.deep_view(),
                    params.deep_view(),
                    old_curr,
                ));
            }
            i = i + 2;
        } else {
            let ghost old_curr = curr@;
            crate::text::push_char(&mut curr, c);
            proof {
                assert(spec_parse_loop(
                    s@,
                    (i + 1) as nat,
                    exprs.deep_view(),
                    params.deep_view(),
                    curr@,
                ) == spec_parse_loop(
                    s@,
                    i as nat,
                    exprs.deep_view(),
                    params.deep_view(),
                    old_curr,
                ));
            }
            i = i + 1;
        }
    }
    let ghost old_exprs = exprs.deep_view();
    let ghost old_curr = curr@;
    if curr.unicode_len() != 0 {
        exprs.push(Expr::Lit(curr));
    }
    proof {
        if old_curr.len() == 0 {
            assert(exprs.deep_view() =~= old_exprs);
        } else {
            assert(exprs.deep_view() =~= old_exprs.push(ExprV::Lit(old_curr)));
        }
    }
    match collect_exprs(exprs) {
        Err(e) => Err(e),
        Ok(expr) => Ok((expr, params)),
    }
}

/// The parameter names referenced by `Var` nodes of an expression.
pub open spec fn expr_vars(e: ExprV) -> Set<Seq<char>>
    decreases e,
{
    match e {
        ExprV::Lit(_) => Set::empty(),
        ExprV::Concat(l, r) => expr_vars(*l).union(expr_vars(*r)),
        ExprV::Ref(_) => Set::empty(),
        ExprV::Var(n) => Set::empty().insert(n),
    }
}

/// The `Var` names of a whole segment list.
pub open spec fn exprs_vars(es: Seq<ExprV>) -> Set<Seq<char>>
    decreases es.len(),
{
    if es.len() == 0 {
        Set::empty()
    } else {
        exprs_vars(es.drop_last()).union(expr_vars(es.last()))
    }
}

/// The set of declared parameter names.
pub open spec fn names_of(ps: Seq<ParamV>) -> Set<Seq<char>> {
    param_names(ps).to_set()
}

/// No name occurs twice.
pub open spec fn distinct_names(ns: Seq<Seq<char>>) -> bool {
    forall|i: int, j: int| 0 <= i < j < ns.len() ==> ns[i] != ns[j]
}

/// Folding neither loses nor introduces variables.
proof fn lemma_fold_from_vars(acc: ExprV, rest: Seq<ExprV>)
    ensures
        expr_vars(spec_fold_from(acc, rest)) =~= expr_vars(acc).union(exprs_vars(rest)),
    decreases rest.len(),
{
    if rest.len() == 0 {
        assert(exprs_vars(rest) =~= Set::<Seq<char>>::empty());
    } else {
        let acc2 = ExprV::Concat(Box::new(acc), Box::new(rest[0]));
        lemma_fold_from_vars(acc2, rest.drop_first());
        lemma_exprs_vars_first(rest);
    }
}

/// Splitting a non-empty segment list at the front.
proof fn lemma_exprs_vars_first(es: Seq<ExprV>)
    requires
        es.len() > 0,
    ensures
        exprs_vars(es) =~= expr_vars(es[0]).union(exprs_vars(es.drop_first())),
    decreases es.len(),
{
    if es.len() == 1 {
        assert(es.drop_last() =~= Seq::<ExprV>::empty());
        assert(es.drop_first() =~= Seq::<ExprV>::empty());
    } else {
        lemma_exprs_vars_first(es.drop_last());
        assert(es.drop_last()[0] == es[0]);
        assert(es.drop_last().drop_first() =~= es.drop_first().drop_last());
        assert(es.drop_first().last() == es.last());
    }
}

/// Appending a segment adds exactly its variables.
proof fn lemma_exprs_vars_push(es: Seq<ExprV>, e: ExprV)
    ensures
        exprs_vars(es.push(e)) =~= exprs_vars(es).union(expr_vars(e)),
{
    assert(es.push(e).drop_last() =~= es);
    assert(es.push(e).last() == e);
}

/// Invariant of the scanning loop: the variables of the collected segments
/// are exactly the declared names, which stay distinct, and the parameter
/// list only grows.
proof fn lemma_loop_wf(
    s: Seq<char>,
    i: nat,
    exprs: Seq<ExprV>,
    params: Seq<ParamV>,
    curr: Seq<char>,
)
    requires
        exprs_vars(exprs) =~= names_of(params),
        distinct_names(param_names(params)),
    ensures
        spec_parse_loop(s, i, exprs, params, curr) matches Ok(r) ==> exprs_vars(r.0) =~= names_of(
            r.1,
        ) && distinct_names(param_names(r.1)) && params.is_prefix_of(r.1),
    decreases s.len() - i,
{
    let flushed = if curr.len() == 0 {
        exprs
    } else {
        exprs.push(ExprV::Lit(curr))
    };
    assert(exprs_vars(flushed) =~= names_of(params)) by {
        if curr.len() != 0 {
            lemma_exprs_vars_push(exprs, ExprV::Lit(curr));
        }
    }
    if i >= s.len() {
        assert(params.is_prefix_of(params));
    } else {
        let c = s[i as int];
        if c == '$' {
            match spec_parse_ref(s, (i + 1) as nat) {
                Err(_) => {},
                Ok((e, p)) => {
                    lemma_parse_ref_pos(s, (i + 1) as nat);
                    assert(e is Ref) by {
                        lemma_ref_body_is_ref(s, (i + 2) as nat, Seq::empty(), Seq::empty());
                    }
                    lemma_exprs_vars_push(flushed, e);
                    assert(exprs_vars(flushed.push(e)) =~= names_of(params));
                    lemma_loop_wf(s, p, flushed.push(e), params, Seq::empty());
                },
            }
        } else if c == '<' {
            match spec_parse_param(s, (i + 1) as nat) {
                Err(_) => {},
                Ok((e, prm, p)) => {
                    if !param_names(params).contains(prm.name) {
                        lemma_parse_param_pos(s, (i + 1) as nat);
                        lemma_exprs_vars_push(flushed, e);
                        let params2 = params.push(prm);
                        assert(param_names(params2) =~= param_names(params).push(prm.name));
                        assert(distinct_names(param_names(params2))) by {
                            let ns = param_names(params);
                            assert forall|a: int, b: int|
                                0 <= a < b < ns.push(prm.name).len() implies ns.push(prm.name)[a]
                                != ns.push(prm.name)[b] by {
                                if b < ns.len() {
                                } else {
                                    assert(ns.push(prm.name)[a] == ns[a]);
                                    if ns[a] == prm.name {
                                        assert(ns.contains(prm.name));
                                    }
                                }
                            }
                        }
                        assert(names_of(params2) =~= names_of(params).insert(prm.name)) by {
                            assert forall|x: Seq<char>| #[trigger] names_of(params2).contains(x)
                                <==> names_of(params).insert(prm.name).contains(x) by {
                                lemma_to_set_push(param_names(params), prm.name);
                            }
                        }
                        assert(e == ExprV::Var(prm.name));
                        assert(exprs_vars(flushed.push(e)) =~= names_of(params2)) by {
                            lemma_exprs_vars_push(flushed, e);
                        }
                        lemma_loop_wf(s, p, flushed.push(e), params2, Seq::empty());
                        assert(params.is_prefix_of(params2));
                    }
                },
            }
        } else if c == '\\' {
            if i + 1 < s.len() {
                lemma_loop_wf(s, (i + 2) as nat, exprs, params, curr.push(s[i as int + 1]));
            }
        } else {
            lemma_loop_wf(s, (i + 1) as nat, exprs, params, curr.push(c));
        }
    }
}

/// Membership in a pushed sequence's set.
proof fn lemma_to_set_push(ns: Seq<Seq<char>>, x: Seq<char>)
    ensures
        ns.push(x).to_set() =~= ns.to_set().insert(x),
{
    assert forall|y: Seq<char>| #[trigger] ns.push(x).to_set().contains(y) implies ns.to_set().insert(
        x,
    ).contains(y) by {
        let k = choose|k: int| 0 <= k < ns.push(x).len() && ns.push(x)[k] == y;
        if k < ns.len() {
            assert(ns[k] == y);
        }
    }
    assert forall|y: Seq<char>| ns.to_set().insert(x).contains(y) implies #[trigger] ns.push(
        x,
    ).to_set().contains(y) by {
        if y == x {
            assert(ns.push(x)[ns.len() as int] == x);
        } else {
            let k = choose|k: int| 0 <= k < ns.len() && ns[k] == y;
            assert(ns.push(x)[k] == y);
        }
    }
}

/// A reference parse yields a `Ref` node.
proof fn lemma_ref_body_is_ref(s: Seq<char>, i: nat, idents: Seq<MemberV>, curr: Seq<char>)
    ensures
        spec_ref_body(s, i, idents, curr) matches Ok(r) ==> r.0 is Ref,
    decreases s.len() - i,
{
    if i < s.len() {
        let c = s[i as int];
        if c == '\\' || c == '}' {
        } else if c == '.' {
            if curr.len() > 0 {
                lemma_ref_body_is_ref(s, (i + 1) as nat, idents.push(spec_to_member(curr)), Seq::empty());
            }
        } else {
            lemma_ref_body_is_ref(s, (i + 1) as nat, idents, curr.push(c));
        }
    }
}

/// The variables of a parsed expression are exactly its declared parameter
/// names, and those names are pairwise distinct.
pub proof fn lemma_parse_expr_vars(s: Seq<char>)
    ensures
        spec_parse_expr(s) matches Ok(r) ==> expr_vars(r.0) =~= names_of(r.1) && distinct_names(
            param_names(r.1),
        ),
{
    assert(exprs_vars(Seq::<ExprV>::empty()) =~= names_of(Seq::<ParamV>::empty())) by {
        assert(param_names(Seq::<ParamV>::empty()) =~= Seq::<Seq<char>>::empty());
    }
    lemma_loop_wf(s, 0, Seq::empty(), Seq::empty(), Seq::empty());
    match spec_parse_loop(s, 0, Seq::empty(), Seq::empty(), Seq::empty()) {
        Err(_) => {},
        Ok((exprs, params)) => {
            if exprs.len() > 0 {
                lemma_exprs_vars_first(exprs);
                lemma_fold_from_vars(exprs[0], exprs.drop_first());
            }
        },
    }
}

/// On input free of `$`, `<` and `\`, the scanner only accumulates literal
/// text.
proof fn lemma_loop_literal(
    s: Seq<char>,
    i: nat,
    exprs: Seq<ExprV>,
    params: Seq<ParamV>,
    curr: Seq<char>,
)
    requires
        i <= s.len(),
        forall|j: int| i <= j < s.len() ==> s[j] != '$' && s[j] != '<' && s[j] != '\\',
    ensures
        spec_parse_loop(s, i, exprs, params, curr) == Ok::<_, ParserErrorV>(
            (
                if curr.len() + s.len() - i == 0 {
                    exprs
                } else {
                    exprs.push(ExprV::Lit(curr + s.skip(i as int)))
                },
                params,
            ),
        ),
    decreases s.len() - i,
{
    if i >= s.len() {
        assert(curr + s.skip(i as int) =~= curr);
    } else {
        let c = s[i as int];
        lemma_loop_literal(s, (i + 1) as nat, exprs, params, curr.push(c));
        assert(curr.push(c) + s.skip(i as int + 1) =~= curr + s.skip(i as int));
    }
}

/// Parsing a non-empty string without `$`, `<` or `\` yields exactly the
/// literal of that string and no parameters.
pub proof fn lemma_parse_literal_only(s: Seq<char>)
    requires
        s.len() > 0,
        forall|j: int| 0 <= j < s.len() ==> s[j] != '$' && s[j] != '<' && s[j] != '\\',
    ensures
        spec_parse_expr(s) == Ok::<_, ParserErrorV>((ExprV::Lit(s), Seq::<ParamV>::empty())),
{
    lemma_loop_literal(s, 0, Seq::empty(), Seq::empty(), Seq::empty());
    assert(Seq::<char>::empty() + s.skip(0) =~= s);
    let es = Seq::<ExprV>::empty().push(ExprV::Lit(s));
    assert(es[0] == ExprV::Lit(s));
    assert(es.drop_first() =~= Seq::<ExprV>::empty());
    assert(spec_fold_concat(es) == ExprV::Lit(s));
}

impl Member {
    /// An exact copy, by value.
    pub fn duplicate(&self) -> (r: Member)
        ensures
            r@ == self@,
    {
        match self {
            Member::Super => Member::Super,
            Member::Member(s) => Member::Member(s.clone()),
        }
    }
}

impl Expr {
    /// An exact deep copy, by value.
    pub fn duplicate(&self) -> (r: Expr)
        ensures
            r@ == self@,
        decreases self,
    {
        match self {
            Expr::Lit(s) => Expr::Lit(s.clone()),
            Expr::Var(s) => Expr::Var(s.clone()),
            Expr::Concat(l, r) => Expr::Concat(Box::new(l.duplicate()), Box::new(r.duplicate())),
            Expr::Ref(ms) => {
                let mut copy: Vec<Member> = Vec::new();
                let mut i: usize = 0;
                while i < ms.len()
                    invariant
                        i <= ms.len(),
                        copy@.len() == i,
                        forall|j: int| 0 <= j < i ==> copy@[j]@ == ms@[j]@,
                    decreases ms.len() - i,
                {
                    copy.push(ms[i].duplicate());
                    i += 1;
                }
                proof {
                    assert forall|j: int| 0 <= j < ms@.len() implies copy.deep_view()[j]
                        == ms.deep_view()[j] by {
                        assert(copy@[j]@ == ms@[j]@);
                    }
                    assert(copy.deep_view() =~= ms.deep_view());
                }
                Expr::Ref(copy)
            },
        }
    }
}

/// The single-line report of a parser error.
pub open spec fn spec_parser_error_message(e: ParserErrorV) -> Seq<char> {
    match e {
        ParserErrorV::EmptyExpr => "Expr is empty"@,
        ParserErrorV::UnexpectedToken(s, p) => "Unexpected token \""@ + s + "\" at pos "@
            + crate::javascript::nat_to_decimal(p),
        ParserErrorV::UnexpectedEOF => "Unexpected EOF"@,
        ParserErrorV::DuplicateParam(n) => "Duplicate param \""@ + n + "\""@,
    }
}

impl ParserError {
    /// The single-line report of this error.
    pub fn message(&self) -> (r: String)
        ensures
            r@ == spec_parser_error_message(self@),
    {
        match self {
            ParserError::EmptyExpr => "Expr is empty".to_owned(),
            ParserError::UnexpectedToken(s, p) => {
                let mut out = String::new();
                out.append("Unexpected token \"");
                out.append(s.as_str());
                out.append("\" at pos ");
                crate::javascript::push_usize_decimal(&mut out, *p);
                proof {
                    assert(Seq::<char>::empty() + "Unexpected token \""@ =~= "Unexpected token \""@);
                }
                out
            },
            ParserError::UnexpectedEOF => "Unexpected EOF".to_owned(),
            ParserError::DuplicateParam(n) => {
                let mut out = String::new();
                out.append("Duplicate param \"");
                out.append(n.as_str());
                out.append("\"");
                proof {
                    assert(Seq::<char>::empty() + "Duplicate param \""@ =~= "Duplicate param \""@);
                }
                out
            },
        }
    }
}

} // verus!
