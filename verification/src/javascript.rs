//! The JavaScript code model: statements, expressions, classes, methods,
//! getters, imports and exports, together with a deterministic renderer.
//! Every variant's surface form is fixed by a specification function, and
//! each `gen` method returns exactly that text.  Statements in a block are
//! separated by newlines; no indentation is applied.

use crate::utils::Either;
use vstd::prelude::*;

verus! {

/// Options handed to the renderer; rendering takes none at present.
pub struct GenContext {}

impl core::default::Default for GenContext {
    fn default() -> (r: GenContext)
        ensures
            r == (GenContext {  }),
    {
        GenContext {  }
    }
}

/// A literal value.
#[derive(Debug, PartialEq)]
pub enum Literal {
    Number(i64),
    String(String),
    Boolean(bool),
}

/// An identifier.
#[derive(Debug, PartialEq)]
pub struct Ident(pub String);

/// The declaration keyword.
#[derive(Debug, PartialEq)]
pub enum DeclType {
    Var,
    Let,
    Const,
}

/// A declaration without initializer.
#[derive(Debug, PartialEq)]
pub struct Decl {
    pub typ: DeclType,
    pub ident: Ident,
}

/// An assignment; without a declaration keyword it is a reassignment.  The
/// assignee may be a bare identifier or a member access.
#[derive(Debug, PartialEq)]
pub struct Assign {
    pub typ: Option<DeclType>,
    pub assignee: Expr,
    pub expr: Expr,
}

/// A comparison operator token.
#[derive(Debug, PartialEq)]
pub struct CompOp(pub String);

/// An arithmetic operator token.
#[derive(Debug, PartialEq)]
pub struct ArithOp(pub String);

/// An expression.
#[derive(Debug, PartialEq)]
pub enum Expr {
    Literal(Literal),
    Var(String),
    Member { base: Box<Expr>, member: Ident },
    Instantiate { constructor: Box<Expr>, args: Vec<Expr> },
    Comp { op: CompOp, l: Box<Expr>, r: Box<Expr> },
    Arith { op: ArithOp, l: Box<Expr>, r: Box<Expr> },
    FuncCall { func: Box<Expr>, args: Vec<Expr> },
    Func { ident: String, params: Vec<String>, stmts: Vec<Stmt>, is_async: bool },
    ArrowFunc { params: Vec<String>, body: Either<Vec<Stmt>, Box<Expr>>, is_async: bool },
    Object(Vec<(String, Expr)>),
}

/// A statement.
#[derive(Debug, PartialEq)]
pub enum Stmt {
    Expr(Expr),
    Decl(Decl),
    Assign(Assign),
    Return(Expr),
    ForLoop { inst: Option<Assign>, chk: Option<Expr>, incr: Option<Expr>, stmts: Vec<Stmt> },
    Import(Import),
    Class(Class),
    Export { is_default: bool, stmt: Box<Stmt> },
}

/// A class constructor.
#[derive(Debug, PartialEq)]
pub struct Constructor {
    pub params: Vec<Ident>,
    pub stmts: Vec<Stmt>,
}

/// A class method.
#[derive(Debug, PartialEq)]
pub struct Method {
    pub ident: Ident,
    pub params: Vec<String>,
    pub stmts: Vec<Stmt>,
    pub is_async: bool,
}

/// A class getter.
#[derive(Debug, PartialEq)]
pub struct Getter {
    pub ident: Ident,
    pub stmts: Vec<Stmt>,
}

/// A class: constructor first, then methods, then getters.
#[derive(Debug, PartialEq)]
pub struct Class {
    pub ident: Ident,
    pub extends: Option<Ident>,
    pub constructor: Option<Constructor>,
    pub methods: Vec<Method>,
    pub getters: Vec<Getter>,
}

/// One name in an import list, with an optional alias.
#[derive(Debug, PartialEq)]
pub enum ImportName {
    Simple(Ident),
    Alias(Ident, Ident),
}

/// The star import marker.
#[derive(Debug, PartialEq)]
pub struct ImportStar();

/// An import statement: an optional default name, an optional star or named
/// list, and the module path.
#[derive(Debug, PartialEq)]
pub struct Import {
    pub def: Option<Ident>,
    pub imps: Option<Either<ImportStar, Vec<ImportName>>>,
    pub path: String,
}

/// A whole source file: a list of top-level statements.
pub struct Code {
    pub stmts: Vec<Stmt>,
}

/// The decimal digit characters.
pub open spec fn digit_char(d: nat) -> char {
    if d == 0 {
        '0'
    } else if d == 1 {
        '1'
    } else if d == 2 {
        '2'
    } else if d == 3 {
        '3'
    } else if d == 4 {
        '4'
    } else if d == 5 {
        '5'
    } else if d == 6 {
        '6'
    } else if d == 7 {
        '7'
    } else if d == 8 {
        '8'
    } else {
        '9'
    }
}

/// The decimal form of a natural number.
pub open spec fn nat_to_decimal(n: nat) -> Seq<char>
    decreases n,
{
    if n < 10 {
        seq![digit_char(n)]
    } else {
        nat_to_decimal(n / 10).push(digit_char(n % 10))
    }
}

/// The decimal form of an integer, with a leading minus sign when negative.
pub open spec fn int_to_decimal(n: int) -> Seq<char> {
    if n < 0 {
        "-"@ + nat_to_decimal((-n) as nat)
    } else {
        nat_to_decimal(n as nat)
    }
}

/// The surface form of a literal: the number's decimal form, the string's
/// content between double quotes (verbatim, unescaped), or `true`/`false`.
pub open spec fn spec_gen_literal(l: Literal) -> Seq<char> {
    match l {
        Literal::Number(n) => int_to_decimal(n as int),
        Literal::String(s) => "\""@ + s@ + "\""@,
        Literal::Boolean(b) => if b {
            "true"@
        } else {
            "false"@
        },
    }
}

/// The declaration keyword's text.
pub open spec fn spec_decl_type(t: DeclType) -> Seq<char> {
    match t {
        DeclType::Var => "var"@,
        DeclType::Let => "let"@,
        DeclType::Const => "const"@,
    }
}

/// The surface form of a declaration: keyword, space, identifier.
pub open spec fn spec_gen_decl(d: Decl) -> Seq<char> {
    spec_decl_type(d.typ) + " "@ + d.ident.0@
}

/// Parameter names joined by `, `.
pub open spec fn spec_gen_names(ps: Seq<String>) -> Seq<char>
    decreases ps,
{
    if ps.len() == 0 {
        Seq::empty()
    } else if ps.len() == 1 {
        ps[0]@
    } else {
        spec_gen_names(ps.drop_last()) + ", "@ + ps.last()@
    }
}

/// Constructor parameters joined by `, `.
pub open spec fn spec_gen_idents(ps: Seq<Ident>) -> Seq<char>
    decreases ps,
{
    if ps.len() == 0 {
        Seq::empty()
    } else if ps.len() == 1 {
        ps[0].0@
    } else {
        spec_gen_idents(ps.drop_last()) + ", "@ + ps.last().0@
    }
}

/// The surface form of an expression.
pub open spec fn spec_gen_expr(e: Expr) -> Seq<char>
    decreases e,
{
    match e {
        Expr::Literal(l) => spec_gen_literal(l),
        Expr::Var(s) => s@,
        Expr::Member { base, member } => spec_gen_expr(*base) + "."@ + member.0@,
        Expr::Instantiate { constructor, args } => "new "@ + spec_gen_expr(*constructor) + "("@
            + spec_gen_args(args@) + ")"@,
        Expr::Comp { op, l, r } => "("@ + spec_gen_expr(*l) + ") "@ + op.0@ + " ("@ + spec_gen_expr(
            *r,
        ) + ")"@,
        Expr::Arith { op, l, r } => "("@ + spec_gen_expr(*l) + ") "@ + op.0@ + " ("@
            + spec_gen_expr(*r) + ")"@,
        Expr::FuncCall { func, args } => spec_gen_expr(*func) + "("@ + spec_gen_args(args@) + ")"@,
        Expr::Func { ident, params, stmts, is_async } => "("@ + (if is_async {
            "async "@
        } else {
            Seq::empty()
        }) + "function "@ + ident@ + "("@ + spec_gen_names(params@) + ") {\n"@ + spec_gen_stmts(
            stmts@,
        ) + "\n})"@,
        Expr::ArrowFunc { params, body, is_async } => match body {
            Either::Left(stmts) => "("@ + (if is_async {
                "async "@
            } else {
                Seq::empty()
            }) + "("@ + spec_gen_names(params@) + ") => {\n"@ + spec_gen_stmts(stmts@) + "\n})"@,
            Either::Right(inner) => (if is_async {
                "async "@
            } else {
                Seq::empty()
            }) + "("@ + spec_gen_names(params@) + ") => "@ + spec_gen_expr(*inner),
        },
        Expr::Object(entries) => if entries@.len() == 0 {
            "{}"@
        } else {
            "{ "@ + spec_gen_object_entries(entries@) + " }"@
        },
    }
}

/// Call arguments joined by `, `.
pub open spec fn spec_gen_args(es: Seq<Expr>) -> Seq<char>
    decreases es,
{
    if es.len() == 0 {
        Seq::empty()
    } else if es.len() == 1 {
        spec_gen_expr(es[0])
    } else {
        spec_gen_args(es.drop_last()) + ", "@ + spec_gen_expr(es.last())
    }
}

/// Object entries `key: value` joined by `, `, in insertion order.
pub open spec fn spec_gen_object_entries(es: Seq<(String, Expr)>) -> Seq<char>
    decreases es,
{
    if es.len() == 0 {
        Seq::empty()
    } else if es.len() == 1 {
        es[0].0@ + ": "@ + spec_gen_expr(es[0].1)
    } else {
        spec_gen_object_entries(es.drop_last()) + ", "@ + es.last().0@ + ": "@ + spec_gen_expr(
            es.last().1,
        )
    }
}

/// The surface form of an assignment.
pub open spec fn spec_gen_assign(a: Assign) -> Seq<char>
    decreases a,
{
    match a.typ {
        Some(t) => spec_decl_type(t) + " "@ + spec_gen_expr(a.assignee) + " = "@ + spec_gen_expr(
            a.expr,
        ),
        None => spec_gen_expr(a.assignee) + " = "@ + spec_gen_expr(a.expr),
    }
}

/// The surface form of a statement.
pub open spec fn spec_gen_stmt(s: Stmt) -> Seq<char>
    decreases s,
{
    match s {
        Stmt::Expr(e) => spec_gen_expr(e) + ";"@,
        Stmt::Decl(d) => spec_gen_decl(d) + ";"@,
        Stmt::Assign(a) => spec_gen_assign(a) + ";"@,
        Stmt::Return(e) => "return "@ + spec_gen_expr(e) + ";"@,
        Stmt::ForLoop { inst, chk, incr, stmts } => "for ("@ + (match inst {
            Some(a) => spec_gen_assign(a),
            None => Seq::empty(),
        }) + "; "@ + (match chk {
            Some(e) => spec_gen_expr(e),
            None => Seq::empty(),
        }) + "; "@ + (match incr {
            Some(e) => spec_gen_expr(e),
            None => Seq::empty(),
        }) + ") {\n"@ + spec_gen_stmts(stmts@) + "\n}"@,
        Stmt::Import(imp) => spec_gen_import(imp),
        Stmt::Class(c) => spec_gen_class(c),
        Stmt::Export { is_default, stmt } => if is_default {
            "export default "@ + spec_gen_stmt(*stmt)
        } else {
            "export "@ + spec_gen_stmt(*stmt)
        },
    }
}

/// Statements joined by newlines.
pub open spec fn spec_gen_stmts(ss: Seq<Stmt>) -> Seq<char>
    decreases ss,
{
    if ss.len() == 0 {
        Seq::empty()
    } else if ss.len() == 1 {
        spec_gen_stmt(ss[0])
    } else {
        spec_gen_stmts(ss.drop_last()) + "\n"@ + spec_gen_stmt(ss.last())
    }
}

/// The surface form of a constructor.
pub open spec fn spec_gen_constructor(c: Constructor) -> Seq<char>
    decreases c,
{
    "constructor("@ + spec_gen_idents(c.params@) + ") {\n"@ + spec_gen_stmts(c.stmts@) + "\n}"@
}

/// The surface form of a method.
pub open spec fn spec_gen_method(m: Method) -> Seq<char>
    decreases m,
{
    (if m.is_async {
        "async "@
    } else {
        Seq::empty()
    }) + m.ident.0@ + "("@ + spec_gen_names(m.params@) + ") {\n"@ + spec_gen_stmts(m.stmts@)
        + "\n}"@
}

/// The surface form of a getter.
pub open spec fn spec_gen_getter(g: Getter) -> Seq<char>
    decreases g,
{
    "get "@ + g.ident.0@ + "() {\n"@ + spec_gen_stmts(g.stmts@) + "\n}"@
}

/// The class members in order, each followed by a newline: the constructor
/// (when present), then the methods, then the getters.
pub open spec fn spec_gen_methods(ms: Seq<Method>) -> Seq<char>
    decreases ms,
{
    if ms.len() == 0 {
        Seq::empty()
    } else {
        spec_gen_methods(ms.drop_last()) + spec_gen_method(ms.last()) + "\n"@
    }
}

/// The getters in order, each followed by a newline.
pub open spec fn spec_gen_getters(gs: Seq<Getter>) -> Seq<char>
    decreases gs,
{
    if gs.len() == 0 {
        Seq::empty()
    } else {
        spec_gen_getters(gs.drop_last()) + spec_gen_getter(gs.last()) + "\n"@
    }
}

/// The surface form of a class.
pub open spec fn spec_gen_class(c: Class) -> Seq<char>
    decreases c,
{
    "class "@ + c.ident.0@ + " "@ + (match c.extends {
        Some(b) => "extends "@ + b.0@ + " "@,
        None => Seq::empty(),
    }) + "{\n"@ + (match c.constructor {
        Some(ct) => spec_gen_constructor(ct) + "\n"@,
        None => Seq::empty(),
    }) + spec_gen_methods(c.methods@) + spec_gen_getters(c.getters@) + "}"@
}

/// One import name, possibly aliased.
pub open spec fn spec_gen_import_name(n: ImportName) -> Seq<char> {
    match n {
        ImportName::Simple(i) => i.0@,
        ImportName::Alias(a, b) => a.0@ + " as "@ + b.0@,
    }
}

/// Import names joined by `, `.
pub open spec fn spec_gen_import_names(ns: Seq<ImportName>) -> Seq<char>
    decreases ns,
{
    if ns.len() == 0 {
        Seq::empty()
    } else if ns.len() == 1 {
        spec_gen_import_name(ns[0])
    } else {
        spec_gen_import_names(ns.drop_last()) + ", "@ + spec_gen_import_name(ns.last())
    }
}

/// The comma list before `from`: the default name, then `*` or the braced
/// name list.
pub open spec fn spec_import_parts(imp: Import) -> Seq<char> {
    let def_part = match imp.def {
        Some(i) => i.0@,
        None => Seq::empty(),
    };
    match imp.imps {
        Some(Either::Left(_)) => if imp.def is Some {
            def_part + ", *"@
        } else {
            "*"@
        },
        Some(Either::Right(ns)) => {
            let braced = "{"@ + spec_gen_import_names(ns@) + "}"@;
            if ns@.len() > 0 {
                if imp.def is Some {
                    def_part + ", "@ + braced
                } else {
                    braced
                }
            } else {
                def_part
            }
        },
        None => def_part,
    }
}

/// The surface form of an import: side-effect-only without names, or the
/// parts before `from` and the quoted path.
pub open spec fn spec_gen_import(imp: Import) -> Seq<char> {
    if imp.def is Some || imp.imps is Some {
        "import "@ + spec_import_parts(imp) + " from \""@ + imp.path@ + "\";"@
    } else {
        "import \""@ + imp.path@ + "\";"@
    }
}

/// The surface form of a source file: every statement followed by a newline.
pub open spec fn spec_gen_code(ss: Seq<Stmt>) -> Seq<char>
    decreases ss,
{
    if ss.len() == 0 {
        Seq::empty()
    } else {
        spec_gen_code(ss.drop_last()) + spec_gen_stmt(ss.last()) + "\n"@
    }
}

/// Anything that renders to source text: `spec_gen` is the text and `gen`
/// produces exactly it.
pub trait Gen {
    spec fn spec_gen(&self) -> Seq<char>;

    fn gen(&self, ctx: &GenContext) -> (r: String)
        ensures
            r@ == self.spec_gen(),
    ;
}

/// The character of one decimal digit.
fn digit_of(d: u64) -> (c: char)
    requires
        d < 10,
    ensures
        c == digit_char(d as nat),
{
    if d == 0 {
        '0'
    } else if d == 1 {
        '1'
    } else if d == 2 {
        '2'
    } else if d == 3 {
        '3'
    } else if d == 4 {
        '4'
    } else if d == 5 {
        '5'
    } else if d == 6 {
        '6'
    } else if d == 7 {
        '7'
    } else if d == 8 {
        '8'
    } else {
        '9'
    }
}

/// Appends the decimal form of `n`.
pub fn push_usize_decimal(s: &mut String, n: usize)
    ensures
        final(s)@ == old(s)@ + nat_to_decimal(n as nat),
{
    push_u64_decimal(s, n as u64);
}

/// Appends the decimal form of `n`.
fn push_u64_decimal(s: &mut String, n: u64)
    ensures
        final(s)@ == old(s)@ + nat_to_decimal(n as nat),
    decreases n,
{
    if n < 10 {
        crate::text::push_char(s, digit_of(n));
        proof {
            assert(old(s)@.push(digit_char(n as nat)) =~= old(s)@ + seq![digit_char(n as nat)]);
        }
    } else {
        push_u64_decimal(s, n / 10);
        crate::text::push_char(s, digit_of(n % 10));
        proof {
            assert((old(s)@ + nat_to_decimal((n / 10) as nat)).push(digit_char((n % 10) as nat))
                =~= old(s)@ + nat_to_decimal((n / 10) as nat).push(digit_char((n % 10) as nat)));
        }
    }
}

/// The decimal form of a number literal.
fn gen_number(n: i64) -> (r: String)
    ensures
        r@ == int_to_decimal(n as int),
{
    let mut out = String::new();
    if n < 0 {
        out.append("-");
        let mag: u64 = ((-(n + 1)) as u64) + 1;
        proof {
            assert(mag == (-(n as int)) as nat);
            assert(Seq::<char>::empty() + "-"@ =~= "-"@);
        }
        push_u64_decimal(&mut out, mag);
    } else {
        push_u64_decimal(&mut out, n as u64);
        proof {
            assert(Seq::<char>::empty() + nat_to_decimal(n as nat) =~= nat_to_decimal(n as nat));
        }
    }
    out
}

/// Renders a literal.
fn gen_literal(l: &Literal, _ctx: &GenContext) -> (r: String)
    ensures
        r@ == spec_gen_literal(*l),
{
    match l {
        Literal::Number(n) => gen_number(*n),
        Literal::String(s) => {
            let mut out = String::new();
            out.append("\"");
            out.append(s.as_str());
            out.append("\"");
            out
        },
        Literal::Boolean(b) => {
            if *b {
                "true".to_owned()
            } else {
                "false".to_owned()
            }
        },
    }
}

/// The keyword of a declaration type.
fn decl_type_keyword(t: &DeclType) -> (r: &'static str)
    ensures
        r@ == spec_decl_type(*t),
{
    match t {
        DeclType::Var => "var",
        DeclType::Let => "let",
        DeclType::Const => "const",
    }
}

/// Renders parameter names joined by `, `.
fn gen_names(ps: &Vec<String>) -> (r: String)
    ensures
        r@ == spec_gen_names(ps@),
{
    let mut out = String::new();
    let mut i: usize = 0;
    proof {
        assert(spec_gen_names(ps@.take(0)) =~= Seq::<char>::empty());
    }
    while i < ps.len()
        invariant
            i <= ps@.len(),
            out@ == spec_gen_names(ps@.take(i as int)),
        decreases ps@.len() - i,
    {
        if i > 0 {
            out.append(", ");
        }
        let piece: &String = &ps[i];
        out.append(piece.as_str());
        proof {
            assert(ps@.take(i as int + 1).drop_last() =~= ps@.take(i as int));
            assert(ps@.take(i as int + 1).last() == ps@[i as int]);
        }
        i += 1;
    }
    proof {
        assert(ps@.take(ps@.len() as int) =~= ps@);
    }
    out
}

/// Renders constructor parameters joined by `, `.
fn gen_idents(ps: &Vec<Ident>) -> (r: String)
    ensures
        r@ == spec_gen_idents(ps@),
{
    let mut out = String::new();
    let mut i: usize = 0;
    proof {
        assert(spec_gen_idents(ps@.take(0)) =~= Seq::<char>::empty());
    }
    while i < ps.len()
        invariant
            i <= ps@.len(),
            out@ == spec_gen_idents(ps@.take(i as int)),
        decreases ps@.len() - i,
    {
        if i > 0 {
            out.append(", ");
        }
        out.append(ps[i].0.as_str());
        proof {
            assert(ps@.take(i as int + 1).drop_last() =~= ps@.take(i as int));
            assert(ps@.take(i as int + 1).last() == ps@[i as int]);
        }
        i += 1;
    }
    proof {
        assert(ps@.take(ps@.len() as int) =~= ps@);
    }
    out
}

/// Renders an expression.
fn gen_expr(e: &Expr, ctx: &GenContext) -> (r: String)
    ensures
        r@ == spec_gen_expr(*e),
    decreases *e,
{
    match e {
        Expr::Literal(l) => gen_literal(l, ctx),
        Expr::Var(s) => s.clone(),
        Expr::Member { base, member } => {
            let mut out = gen_expr(base, ctx);
            out.append(".");
            out.append(member.0.as_str());
            out
        },
        Expr::Instantiate { constructor, args } => {
            let mut out = String::new();
            out.append("new ");
            let c = gen_expr(constructor, ctx);
            out.append(c.as_str());
            out.append("(");
            let a = gen_args(args, ctx);
            out.append(a.as_str());
            out.append(")");
            proof {
                assert(Seq::<char>::empty() + "new "@ =~= "new "@);
            }
            out
        },
        Expr::Comp { op, l, r } => {
            let mut out = String::new();
            out.append("(");
            let ls = gen_expr(l, ctx);
            out.append(ls.as_str());
            out.append(") ");
            out.append(op.0.as_str());
            out.append(" (");
            let rs = gen_expr(r, ctx);
            out.append(rs.as_str());
            out.append(")");
            proof {
                assert(Seq::<char>::empty() + "("@ =~= "("@);
            }
            out
        },
        Expr::Arith { op, l, r } => {
            let mut out = String::new();
            out.append("(");
            let ls = gen_expr(l, ctx);
            out.append(ls.as_str());
            out.append(") ");
            out.append(op.0.as_str());
            out.append(" (");
            let rs = gen_expr(r, ctx);
            out.append(rs.as_str());
            out.append(")");
            proof {
                assert(Seq::<char>::empty() + "("@ =~= "("@);
            }
            out
        },
        Expr::FuncCall { func, args } => {
            let mut out = gen_expr(func, ctx);
            out.append("(");
            let a = gen_args(args, ctx);
            out.append(a.as_str());
            out.append(")");
            out
        },
        Expr::Func { ident, params, stmts, is_async } => {
            let mut out = String::new();
            out.append("(");
            if *is_async {
                out.append("async ");
            }
            out.append("function ");
            out.append(ident.as_str());
            out.append("(");
            let p = gen_names(params);
            out.append(p.as_str());
            out.append(") {\n");
            let b = gen_stmts(stmts, ctx);
            out.append(b.as_str());
            out.append("\n})");
            proof {
                assert(Seq::<char>::empty() + "("@ =~= "("@);
            }
            out
        },
        Expr::ArrowFunc { params, body, is_async } => {
            match body {
                Either::Left(stmts) => {
                    let mut out = String::new();
                    out.append("(");
                    if *is_async {
                        out.append("async ");
                    }
                    out.append("(");
                    let p = gen_names(params);
                    out.append(p.as_str());
                    out.append(") => {\n");
                    let b = gen_stmts(stmts, ctx);
                    out.append(b.as_str());
                    out.append("\n})");
                    proof {
                        assert(Seq::<char>::empty() + "("@ =~= "("@);
                    }
                    out
                },
                Either::Right(inner) => {
                    let mut out = String::new();
                    if *is_async {
                        out.append("async ");
                    }
                    out.append("(");
                    let p = gen_names(params);
                    out.append(p.as_str());
                    out.append(") => ");
                    let b = gen_expr(inner, ctx);
                    out.append(b.as_str());
                    proof {
                        if *is_async {
                            assert(Seq::<char>::empty() + "async "@ =~= "async "@);
                        } else {
                            assert(Seq::<char>::empty() + "("@ =~= Seq::<char>::empty() + "("@);
                            assert(Seq::<char>::empty() =~= (if *is_async {
                                "async "@
                            } else {
                                Seq::<char>::empty()
                            }));
                        }
                    }
                    out
                },
            }
        },
        Expr::Object(entries) => {
            if entries.len() == 0 {
                "{}".to_owned()
            } else {
                let mut out = String::new();
                out.append("{ ");
                let es = gen_object_entries(entries, ctx);
                out.append(es.as_str());
                out.append(" }");
                proof {
                    assert(Seq::<char>::empty() + "{ "@ =~= "{ "@);
                }
                out
            }
        },
    }
}

/// Renders call arguments joined by `, `.
fn gen_args(es: &Vec<Expr>, ctx: &GenContext) -> (r: String)
    ensures
        r@ == spec_gen_args(es@),
    decreases *es,
{
    let mut out = String::new();
    let mut i: usize = 0;
    proof {
        assert(spec_gen_args(es@.take(0)) =~= Seq::<char>::empty());
    }
    while i < es.len()
        invariant
            i <= es@.len(),
            out@ == spec_gen_args(es@.take(i as int)),
        decreases es@.len() - i,
    {
        if i > 0 {
            out.append(", ");
        }
        proof {
            assert(decreases_to!(*es => es@));
            assert(decreases_to!(es@ => es@[i as int]));
        }
        let piece = gen_expr(&es[i], ctx);
        out.append(piece.as_str());
        proof {
            assert(es@.take(i as int + 1).drop_last() =~= es@.take(i as int));
            assert(es@.take(i as int + 1).last() == es@[i as int]);
        }
        i += 1;
    }
    proof {
        assert(es@.take(es@.len() as int) =~= es@);
    }
    out
}

/// Renders object entries joined by `, `.
fn gen_object_entries(es: &Vec<(String, Expr)>, ctx: &GenContext) -> (r: String)
    ensures
        r@ == spec_gen_object_entries(es@),
    decreases *es,
{
    let mut out = String::new();
    let mut i: usize = 0;
    proof {
        assert(spec_gen_object_entries(es@.take(0)) =~= Seq::<char>::empty());
    }
    while i < es.len()
        invariant
            i <= es@.len(),
            out@ == spec_gen_object_entries(es@.take(i as int)),
        decreases es@.len() - i,
    {
        if i > 0 {
            out.append(", ");
        }
        out.append(es[i].0.as_str());
        out.append(": ");
        proof {
            assert(decreases_to!(*es => es@));
            assert(decreases_to!(es@ => es@[i as int]));
            assert(decreases_to!(es@[i as int] => es@[i as int].1));
        }
        let piece = gen_expr(&es[i].1, ctx);
        out.append(piece.as_str());
        proof {
            assert(es@.take(i as int + 1).drop_last() =~= es@.take(i as int));
            assert(es@.take(i as int + 1).last() == es@[i as int]);
        }
        i += 1;
    }
    proof {
        assert(es@.take(es@.len() as int) =~= es@);
    }
    out
}

/// Renders an assignment.
fn gen_assign(a: &Assign, ctx: &GenContext) -> (r: String)
    ensures
        r@ == spec_gen_assign(*a),
    decreases *a,
{
    let mut out = String::new();
    match &a.typ {
        Some(t) => {
            out.append(decl_type_keyword(t));
            out.append(" ");
        },
        None => {},
    }
    let lhs = gen_expr(&a.assignee, ctx);
    out.append(lhs.as_str());
    out.append(" = ");
    let rhs = gen_expr(&a.expr, ctx);
    out.append(rhs.as_str());
    proof {
        if a.typ is Some {
            assert(Seq::<char>::empty() + spec_decl_type(a.typ->0) =~= spec_decl_type(a.typ->0));
        } else {
            assert(Seq::<char>::empty() + spec_gen_expr(a.assignee) =~= spec_gen_expr(a.assignee));
        }
    }
    out
}

/// Renders a statement.
fn gen_stmt(s: &Stmt, ctx: &GenContext) -> (r: String)
    ensures
        r@ == spec_gen_stmt(*s),
    decreases *s,
{
    match s {
        Stmt::Expr(e) => {
            let mut out = gen_expr(e, ctx);
            out.append(";");
            out
        },
        Stmt::Decl(d) => {
            let mut out = String::new();
            out.append(decl_type_keyword(&d.typ));
            out.append(" ");
            out.append(d.ident.0.as_str());
            out.append(";");
            proof {
                assert(Seq::<char>::empty() + spec_decl_type(d.typ) =~= spec_decl_type(d.typ));
            }
            out
        },
        Stmt::Assign(a) => {
            let mut out = gen_assign(a, ctx);
            out.append(";");
            out
        },
        Stmt::Return(e) => {
            let mut out = String::new();
            out.append("return ");
            let es = gen_expr(e, ctx);
            out.append(es.as_str());
            out.append(";");
            proof {
                assert(Seq::<char>::empty() + "return "@ =~= "return "@);
            }
            out
        },
        Stmt::ForLoop { inst, chk, incr, stmts } => {
            let mut out = String::new();
            out.append("for (");
            match inst {
                Some(a) => {
                    let t = gen_assign(a, ctx);
                    out.append(t.as_str());
                },
                None => {},
            }
            out.append("; ");
            match chk {
                Some(e) => {
                    let t = gen_expr(e, ctx);
                    out.append(t.as_str());
                },
                None => {},
            }
            out.append("; ");
            match incr {
                Some(e) => {
                    let t = gen_expr(e, ctx);
                    out.append(t.as_str());
                },
                None => {},
            }
            out.append(") {\n");
            let b = gen_stmts(stmts, ctx);
            out.append(b.as_str());
            out.append("\n}");
            proof {
                assert(Seq::<char>::empty() + "for ("@ =~= "for ("@);
            }
            out
        },
        Stmt::Import(imp) => gen_import(imp, ctx),
        Stmt::Class(c) => gen_class(c, ctx),
        Stmt::Export { is_default, stmt } => {
            let mut out = String::new();
            if *is_default {
                out.append("export default ");
                proof {
                    assert(Seq::<char>::empty() + "export default "@ =~= "export default "@);
                }
            } else {
                out.append("export ");
                proof {
                    assert(Seq::<char>::empty() + "export "@ =~= "export "@);
                }
            }
            let inner = gen_stmt(stmt, ctx);
            out.append(inner.as_str());
            out
        },
    }
}

/// Renders statements joined by newlines.
fn gen_stmts(ss: &Vec<Stmt>, ctx: &GenContext) -> (r: String)
    ensures
        r@ == spec_gen_stmts(ss@),
    decreases *ss,
{
    let mut out = String::new();
    let mut i: usize = 0;
    proof {
        assert(spec_gen_stmts(ss@.take(0)) =~= Seq::<char>::empty());
    }
    while i < ss.len()
        invariant
            i <= ss@.len(),
            out@ == spec_gen_stmts(ss@.take(i as int)),
        decreases ss@.len() - i,
    {
        if i > 0 {
            out.append("\n");
        }
        proof {
            assert(decreases_to!(*ss => ss@));
            assert(decreases_to!(ss@ => ss@[i as int]));
        }
        let piece = gen_stmt(&ss[i], ctx);
        out.append(piece.as_str());
        proof {
            assert(ss@.take(i as int + 1).drop_last() =~= ss@.take(i as int));
            assert(ss@.take(i as int + 1).last() == ss@[i as int]);
        }
        i += 1;
    }
    proof {
        assert(ss@.take(ss@.len() as int) =~= ss@);
    }
    out
}

/// Renders a constructor.
fn gen_constructor(c: &Constructor, ctx: &GenContext) -> (r: String)
    ensures
        r@ == spec_gen_constructor(*c),
    decreases *c,
{
    let mut out = String::new();
    out.append("constructor(");
    let p = gen_idents(&c.params);
    out.append(p.as_str());
    out.append(") {\n");
    proof {
        assert(decreases_to!(*c => c.stmts));
    }
    let b = gen_stmts(&c.stmts, ctx);
    out.append(b.as_str());
    out.append("\n}");
    proof {
        assert(Seq::<char>::empty() + "constructor("@ =~= "constructor("@);
    }
    out
}

/// Renders a method.
fn gen_method(m: &Method, ctx: &GenContext) -> (r: String)
    ensures
        r@ == spec_gen_method(*m),
    decreases *m,
{
    let mut out = String::new();
    if m.is_async {
        out.append("async ");
        proof {
            assert(Seq::<char>::empty() + "async "@ =~= "async "@);
        }
    }
    out.append(m.ident.0.as_str());
    out.append("(");
    let p = gen_names(&m.params);
    out.append(p.as_str());
    out.append(") {\n");
    proof {
        assert(decreases_to!(*m => m.stmts));
    }
    let b = gen_stmts(&m.stmts, ctx);
    out.append(b.as_str());
    out.append("\n}");
    proof {
        if !m.is_async {
            assert(Seq::<char>::empty() + m.ident.0@ =~= m.ident.0@);
        }
    }
    out
}

/// Renders a getter.
fn gen_getter(g: &Getter, ctx: &GenContext) -> (r: String)
    ensures
        r@ == spec_gen_getter(*g),
    decreases *g,
{
    let mut out = String::new();
    out.append("get ");
    out.append(g.ident.0.as_str());
    out.append("() {\n");
    proof {
        assert(decreases_to!(*g => g.stmts));
    }
    let b = gen_stmts(&g.stmts, ctx);
    out.append(b.as_str());
    out.append("\n}");
    proof {
        assert(Seq::<char>::empty() + "get "@ =~= "get "@);
    }
    out
}

/// Renders the methods, each followed by a newline.
fn gen_methods(ms: &Vec<Method>, ctx: &GenContext) -> (r: String)
    ensures
        r@ == spec_gen_methods(ms@),
    decreases *ms,
{
    let mut out = String::new();
    let mut i: usize = 0;
    proof {
        assert(spec_gen_methods(ms@.take(0)) =~= Seq::<char>::empty());
    }
    while i < ms.len()
        invariant
            i <= ms@.len(),
            out@ == spec_gen_methods(ms@.take(i as int)),
        decreases ms@.len() - i,
    {
        proof {
            assert(decreases_to!(*ms => ms@));
            assert(decreases_to!(ms@ => ms@[i as int]));
        }
        let piece = gen_method(&ms[i], ctx);
        out.append(piece.as_str());
        out.append("\n");
        proof {
            assert(ms@.take(i as int + 1).drop_last() =~= ms@.take(i as int));
            assert(ms@.take(i as int + 1).last() == ms@[i as int]);
        }
        i += 1;
    }
    proof {
        assert(ms@.take(ms@.len() as int) =~= ms@);
    }
    out
}

/// Renders the getters, each followed by a newline.
fn gen_getters(gs: &Vec<Getter>, ctx: &GenContext) -> (r: String)
    ensures
        r@ == spec_gen_getters(gs@),
    decreases *gs,
{
    let mut out = String::new();
    let mut i: usize = 0;
    proof {
        assert(spec_gen_getters(gs@.take(0)) =~= Seq::<char>::empty());
    }
    while i < gs.len()
        invariant
            i <= gs@.len(),
            out@ == spec_gen_getters(gs@.take(i as int)),
        decreases gs@.len() - i,
    {
        proof {
            assert(decreases_to!(*gs => gs@));
            assert(decreases_to!(gs@ => gs@[i as int]));
        }
        let piece = gen_getter(&gs[i], ctx);
        out.append(piece.as_str());
        out.append("\n");
        proof {
            assert(gs@.take(i as int + 1).drop_last() =~= gs@.take(i as int));
            assert(gs@.take(i as int + 1).last() == gs@[i as int]);
        }
        i += 1;
    }
    proof {
        assert(gs@.take(gs@.len() as int) =~= gs@);
    }
    out
}

/// Renders a class.
fn gen_class(c: &Class, ctx: &GenContext) -> (r: String)
    ensures
        r@ == spec_gen_class(*c),
    decreases *c,
{
    let mut out = String::new();
    out.append("class ");
    out.append(c.ident.0.as_str());
    out.append(" ");
    match &c.extends {
        Some(b) => {
            out.append("extends ");
            out.append(b.0.as_str());
            out.append(" ");
        },
        None => {},
    }
    out.append("{\n");
    match &c.constructor {
        Some(ct) => {
            proof {
                assert(decreases_to!(*c => c.constructor));
                assert(decreases_to!(c.constructor => c.constructor->0));
            }
            let t = gen_constructor(ct, ctx);
            out.append(t.as_str());
            out.append("\n");
        },
        None => {},
    }
    proof {
        assert(decreases_to!(*c => c.methods));
        assert(decreases_to!(*c => c.getters));
    }
    let ms = gen_methods(&c.methods, ctx);
    out.append(ms.as_str());
    let gs = gen_getters(&c.getters, ctx);
    out.append(gs.as_str());
    out.append("}");
    proof {
        assert(Seq::<char>::empty() + "class "@ =~= "class "@);
    }
    out
}

/// Renders one import name.
fn gen_import_name(n: &ImportName, _ctx: &GenContext) -> (r: String)
    ensures
        r@ == spec_gen_import_name(*n),
{
    match n {
        ImportName::Simple(i) => i.0.clone(),
        ImportName::Alias(a, b) => {
            let mut out = a.0.clone();
            out.append(" as ");
            out.append(b.0.as_str());
            out
        },
    }
}

/// Renders import names joined by `, `.
fn gen_import_names(ns: &Vec<ImportName>, ctx: &GenContext) -> (r: String)
    ensures
        r@ == spec_gen_import_names(ns@),
{
    let mut out = String::new();
    let mut i: usize = 0;
    proof {
        assert(spec_gen_import_names(ns@.take(0)) =~= Seq::<char>::empty());
    }
    while i < ns.len()
        invariant
            i <= ns@.len(),
            out@ == spec_gen_import_names(ns@.take(i as int)),
        decreases ns@.len() - i,
    {
        if i > 0 {
            out.append(", ");
        }
        let piece = gen_import_name(&ns[i], ctx);
        out.append(piece.as_str());
        proof {
            assert(ns@.take(i as int + 1).drop_last() =~= ns@.take(i as int));
            assert(ns@.take(i as int + 1).last() == ns@[i as int]);
        }
        i += 1;
    }
    proof {
        assert(ns@.take(ns@.len() as int) =~= ns@);
    }
    out
}

/// Renders an import statement.
fn gen_import(imp: &Import, ctx: &GenContext) -> (r: String)
    ensures
        r@ == spec_gen_import(*imp),
{
    let has_def = match &imp.def {
        Some(_) => true,
        None => false,
    };
    let has_imps = match &imp.imps {
        Some(_) => true,
        None => false,
    };
    if has_def || has_imps {
        let mut parts = String::new();
        match &imp.def {
            Some(i) => {
                parts.append(i.0.as_str());
            },
            None => {},
        }
        match &imp.imps {
            Some(Either::Left(_)) => {
                if has_def {
                    parts.append(", *");
                } else {
                    parts.append("*");
                }
            },
            Some(Either::Right(ns)) => {
                if ns.len() > 0 {
                    if has_def {
                        parts.append(", ");
                    }
                    parts.append("{");
                    let nss = gen_import_names(ns, ctx);
                    parts.append(nss.as_str());
                    parts.append("}");
                }
            },
            None => {},
        }
        proof {
            assert(parts@ == spec_import_parts(*imp)) by {
                match imp.def {
                    Some(i) => {
                        assert(Seq::<char>::empty() + i.0@ =~= i.0@);
                    },
                    None => {},
                }
                match imp.imps {
                    Some(Either::Left(_)) => {
                        if imp.def is None {
                            assert(Seq::<char>::empty() + "*"@ =~= "*"@);
                        }
                    },
                    Some(Either::Right(ns)) => {
                        if ns@.len() > 0 && imp.def is None {
                            assert(Seq::<char>::empty() + "{"@ =~= "{"@);
                        }
                    },
                    None => {},
                }
            }
        }
        let mut out = String::new();
        out.append("import ");
        out.append(parts.as_str());
        out.append(" from \"");
        out.append(imp.path.as_str());
        out.append("\";");
        proof {
            assert(Seq::<char>::empty() + "import "@ =~= "import "@);
        }
        out
    } else {
        let mut out = String::new();
        out.append("import \"");
        out.append(imp.path.as_str());
        out.append("\";");
        proof {
            assert(Seq::<char>::empty() + "import \""@ =~= "import \""@);
        }
        out
    }
}

/// Renders a whole source file: every statement followed by a newline.
fn gen_code(ss: &Vec<Stmt>, ctx: &GenContext) -> (r: String)
    ensures
        r@ == spec_gen_code(ss@),
{
    let mut out = String::new();
    let mut i: usize = 0;
    proof {
        assert(spec_gen_code(ss@.take(0)) =~= Seq::<char>::empty());
    }
    while i < ss.len()
        invariant
            i <= ss@.len(),
            out@ == spec_gen_code(ss@.take(i as int)),
        decreases ss@.len() - i,
    {
        let piece = gen_stmt(&ss[i], ctx);
        out.append(piece.as_str());
        out.append("\n");
        proof {
            assert(ss@.take(i as int + 1).drop_last() =~= ss@.take(i as int));
            assert(ss@.take(i as int + 1).last() == ss@[i as int]);
        }
        i += 1;
    }
    proof {
        assert(ss@.take(ss@.len() as int) =~= ss@);
    }
    out
}

impl Gen for Literal {
    open spec fn spec_gen(&self) -> Seq<char> {
        spec_gen_literal(*self)
    }

    fn gen(&self, ctx: &GenContext) -> (r: String) {
        gen_literal(self, ctx)
    }
}

impl Gen for Ident {
    open spec fn spec_gen(&self) -> Seq<char> {
        self.0@
    }

    fn gen(&self, _ctx: &GenContext) -> (r: String) {
        self.0.clone()
    }
}

impl Gen for Decl {
    open spec fn spec_gen(&self) -> Seq<char> {
        spec_gen_decl(*self)
    }

    fn gen(&self, _ctx: &GenContext) -> (r: String) {
        let mut out = String::new();
        out.append(decl_type_keyword(&self.typ));
        out.append(" ");
        out.append(self.ident.0.as_str());
        proof {
            assert(Seq::<char>::empty() + spec_decl_type(self.typ) =~= spec_decl_type(self.typ));
        }
        out
    }
}

impl Gen for Assign {
    open spec fn spec_gen(&self) -> Seq<char> {
        spec_gen_assign(*self)
    }

    fn gen(&self, ctx: &GenContext) -> (r: String) {
        gen_assign(self, ctx)
    }
}

impl Gen for CompOp {
    open spec fn spec_gen(&self) -> Seq<char> {
        self.0@
    }

    fn gen(&self, _ctx: &GenContext) -> (r: String) {
        self.0.clone()
    }
}

impl Gen for ArithOp {
    open spec fn spec_gen(&self) -> Seq<char> {
        self.0@
    }

    fn gen(&self, _ctx: &GenContext) -> (r: String) {
        self.0.clone()
    }
}

impl Gen for Expr {
    open spec fn spec_gen(&self) -> Seq<char> {
        spec_gen_expr(*self)
    }

    fn gen(&self, ctx: &GenContext) -> (r: String) {
        gen_expr(self, ctx)
    }
}

impl Gen for Stmt {
    open spec fn spec_gen(&self) -> Seq<char> {
        spec_gen_stmt(*self)
    }

    fn gen(&self, ctx: &GenContext) -> (r: String) {
        gen_stmt(self, ctx)
    }
}

impl Gen for Constructor {
    open spec fn spec_gen(&self) -> Seq<char> {
        spec_gen_constructor(*self)
    }

    fn gen(&self, ctx: &GenContext) -> (r: String) {
        gen_constructor(self, ctx)
    }
}

impl Gen for Method {
    open spec fn spec_gen(&self) -> Seq<char> {
        spec_gen_method(*self)
    }

    fn gen(&self, ctx: &GenContext) -> (r: String) {
        gen_method(self, ctx)
    }
}

impl Gen for Getter {
    open spec fn spec_gen(&self) -> Seq<char> {
        spec_gen_getter(*self)
    }

    fn gen(&self, ctx: &GenContext) -> (r: String) {
        gen_getter(self, ctx)
    }
}

impl Gen for Class {
    open spec fn spec_gen(&self) -> Seq<char> {
        spec_gen_class(*self)
    }

    fn gen(&self, ctx: &GenContext) -> (r: String) {
        gen_class(self, ctx)
    }
}

impl Gen for ImportName {
    open spec fn spec_gen(&self) -> Seq<char> {
        spec_gen_import_name(*self)
    }

    fn gen(&self, ctx: &GenContext) -> (r: String) {
        gen_import_name(self, ctx)
    }
}

impl Gen for Import {
    open spec fn spec_gen(&self) -> Seq<char> {
        spec_gen_import(*self)
    }

    fn gen(&self, ctx: &GenContext) -> (r: String) {
        gen_import(self, ctx)
    }
}

impl Gen for Code {
    open spec fn spec_gen(&self) -> Seq<char> {
        spec_gen_code(self.stmts@)
    }

    fn gen(&self, ctx: &GenContext) -> (r: String) {
        gen_code(&self.stmts, ctx)
    }
}

/// Rendering the same code-model tree twice yields identical text: both
/// renders equal the tree's specified surface form.
pub proof fn lemma_render_deterministic(c1: Code, c2: Code, r1: String, r2: String)
    requires
        c1.stmts@ == c2.stmts@,
        r1@ == c1.spec_gen(),
        r2@ == c2.spec_gen(),
    ensures
        r1@ == r2@,
{
}

} // verus!
