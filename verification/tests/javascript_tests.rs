use xsrc::javascript::{
    ArithOp, Assign, Class, Code, CompOp, Constructor, Decl, DeclType, Expr, Gen, GenContext,
    Getter, Ident, Import, ImportName, ImportStar, Literal, Method, Stmt,
};
use xsrc::utils::Either;
use xsrc::utils::Either::{Left, Right};

#[test]
fn mod_const_expr() {
    let ctx = GenContext {};
    let const_expr = Expr::Literal(Literal::String("OK".to_string()));
    assert_eq!(const_expr.gen(&ctx), "\"OK\"");
}

#[test]
fn mod_var_expr() {
    let ctx = GenContext {};
    let var_expr = Expr::Var("someVar".to_string());
    assert_eq!(var_expr.gen(&ctx), "someVar".to_string());
}

#[test]
fn mod_func_call_expr() {
    let ctx = GenContext {};
    let func_call_expr = Expr::FuncCall {
        func: Box::new(Expr::Var("console.log".to_string())),
        args: vec![Expr::Var("someVar".to_string())],
    };
    assert_eq!(func_call_expr.gen(&ctx), "console.log(someVar)");
}

#[test]
fn mod_func_expr() {
    let ctx = GenContext {};
    let stmt = Stmt::Expr(Expr::FuncCall {
        func: Box::new(Expr::Var("console.log".to_string())),
        args: vec![Expr::Literal(Literal::String("OK".to_string()))],
    });
    let func_expr = Expr::Func {
        ident: "myFunc".to_string(),
        params: vec!["someVar".to_string()],
        stmts: vec![stmt],
        is_async: false,
    };
    assert_eq!(
        func_expr.gen(&ctx),
        "\
(function myFunc(someVar) {
console.log(\"OK\");
})"
    )
}

#[test]
fn mod_arrow_func_expr() {
    let ctx = GenContext {};
    let expr = Expr::FuncCall {
        func: Box::new(Expr::Var("console.log".to_string())),
        args: vec![Expr::Literal(Literal::String("OK".to_string()))],
    };
    let arrow_func_expr = Expr::ArrowFunc {
        params: vec!["someVar".to_string()],
        body: Either::Right(Box::new(expr)),
        is_async: true,
    };
    assert_eq!(arrow_func_expr.gen(&ctx), "async (someVar) => console.log(\"OK\")");
}

#[test]
fn mod_expr_stmt() {
    let ctx = GenContext {};
    let expr = Expr::FuncCall {
        func: Box::new(Expr::Var("console.log".to_string())),
        args: vec![Expr::Literal(Literal::String("OK".to_string()))],
    };
    let expr_stmt = Stmt::Expr(expr);
    assert_eq!(expr_stmt.gen(&ctx), "console.log(\"OK\");")
}

#[test]
fn mod_decl_stmt() {
    let ctx = GenContext {};
    let stmt = Stmt::Decl(Decl {
        typ: DeclType::Const,
        ident: Ident("hello".to_string()),
    });
    assert_eq!(stmt.gen(&ctx), "const hello;");
}

#[test]
fn mod_assign_stmt() {
    let ctx = GenContext {};
    let func_call = Expr::FuncCall {
        func: Box::new(Expr::Var("console.log".to_string())),
        args: vec![Expr::Literal(Literal::String("OK".to_string()))],
    };
    let global_assign_stmt = Stmt::Assign(Assign {
        typ: None,
        assignee: Expr::Var("hello".to_string()),
        expr: func_call,
    });
    assert_eq!(global_assign_stmt.gen(&ctx), "hello = console.log(\"OK\");")
}

#[test]
fn mod_for_loop_stmt() {
    let ctx = GenContext {};
    let func_call_1 = Expr::FuncCall {
        func: Box::new(Expr::Var("console.log".to_string())),
        args: vec![Expr::Literal(Literal::String("OK".to_string()))],
    };
    let func_args_2 = vec![Expr::Arith {
        op: ArithOp("+".to_string()),
        l: Box::new(Expr::Literal(Literal::Number(3))),
        r: Box::new(Expr::Literal(Literal::Number(4))),
    }];
    let func_call_2 = Expr::FuncCall {
        func: Box::new(Expr::Var("alert".to_string())),
        args: func_args_2,
    };
    let stmts = vec![Stmt::Expr(func_call_1), Stmt::Expr(func_call_2)];
    let inst = Some(Assign {
        typ: Some(DeclType::Let),
        assignee: Expr::Var("idx".to_string()),
        expr: Expr::Literal(Literal::Number(3)),
    });
    let chk = Some(Expr::Comp {
        op: CompOp("<".to_string()),
        l: Box::new(Expr::Var("idx".to_string())),
        r: Box::new(Expr::Literal(Literal::Number(10))),
    });
    let incr = Some(Expr::Comp {
        op: CompOp("+=".to_string()),
        l: Box::new(Expr::Var("idx".to_string())),
        r: Box::new(Expr::Literal(Literal::Number(1))),
    });
    let for_loop = Stmt::ForLoop {
        inst,
        chk,
        incr,
        stmts,
    };
    assert_eq!(
        for_loop.gen(&ctx),
        "\
for (let idx = 3; (idx) < (10); (idx) += (1)) {
console.log(\"OK\");
alert((3) + (4));
}\
"
    )
}

#[test]
fn named_export() {
    let stmt = Stmt::Expr(Expr::Var("xiaosi".to_string()));
    let export_stmt = Stmt::Export {
        is_default: false,
        stmt: Box::new(stmt),
    };
    assert_eq!(export_stmt.gen(&GenContext {}), "export xiaosi;")
}

#[test]
fn default_export() {
    let stmt = Stmt::Expr(Expr::Var("xiaosi".to_string()));
    let export_stmt = Stmt::Export {
        is_default: true,
        stmt: Box::new(stmt),
    };
    assert_eq!(export_stmt.gen(&GenContext {}), "export default xiaosi;")
}

#[test]
fn mod_xiaosi_class() {
    let ident = Ident("XiaoSi".to_string());
    let constructor = Constructor {
        params: vec![Ident("url".to_string()), Ident("params".to_string())],
        stmts: vec![Stmt::Expr(Expr::FuncCall {
            func: Box::new(Expr::Var("console.log".to_string())),
            args: vec![Expr::Literal(Literal::String("Hello world!".to_string()))],
        })],
    };
    let methods = vec![Method {
        ident: Ident("loves".to_string()),
        params: vec!["singoi".to_string()],
        stmts: vec![Stmt::Return(Expr::Literal(Literal::Boolean(true)))],
        is_async: true,
    }];
    let getters = vec![Getter {
        ident: Ident("age".to_string()),
        stmts: vec![Stmt::Return(Expr::Literal(Literal::Number(23)))],
    }];
    let xiaosi_class = Class {
        ident,
        extends: Some(Ident("Parent".to_string())),
        constructor: Some(constructor),
        methods,
        getters,
    };
    println!("{}", xiaosi_class.gen(&GenContext {}));
    assert_eq!(
        xiaosi_class.gen(&GenContext {}),
        "\
class XiaoSi extends Parent {
constructor(url, params) {
console.log(\"Hello world!\");
}
async loves(singoi) {
return true;
}
get age() {
return 23;
}
}"
    );
}

#[test]
fn mod_xiaosi_import_all() {
    let imp = Import {
        def: Some(Ident("XiaoSi".to_string())),
        imps: Some(Left(ImportStar())),
        path: "xiaosi".to_string(),
    };
    assert_eq!("import XiaoSi, * from \"xiaosi\";", imp.gen(&GenContext {}));
}

#[test]
fn mod_xiaosi_import_named() {
    let imp = Import {
        def: None,
        imps: Some(Right(vec![
            ImportName::Simple(Ident("alpha".to_string())),
            ImportName::Alias(Ident("beta".to_string()), Ident("bravo".to_string())),
        ])),
        path: "xiaosi".to_string(),
    };
    assert_eq!(
        "import {alpha, beta as bravo} from \"xiaosi\";",
        imp.gen(&GenContext {})
    );
}

#[test]
fn mod_xiaosi_import_side_effect_only() {
    let imp = Import {
        def: None,
        imps: None,
        path: "xiaosi".to_string(),
    };
    assert_eq!("import \"xiaosi\";", imp.gen(&GenContext {}));
}

#[test]
fn xiaosi_code() {
    let stmts = vec![
        Stmt::Import(Import {
            def: Some(Ident("Hello".to_string())),
            imps: Some(Left(ImportStar())),
            path: "hello".to_string(),
        }),
        Stmt::Class(Class {
            ident: Ident("XiaoSi".to_string()),
            extends: None,
            constructor: None,
            methods: Vec::new(),
            getters: Vec::new(),
        }),
    ];
    let code = Code { stmts: stmts };
    println!("{}", code.gen(&GenContext {}));
}

#[test]
fn structs_xiaosi_import_all() {
    let imp = Import {
        def: Some(Ident("XiaoSi".to_string())),
        imps: Some(Left(ImportStar {})),
        path: "xiaosi".to_string(),
    };
    assert_eq!("import XiaoSi, * from \"xiaosi\";", imp.gen(&GenContext {}));
}

#[test]
fn structs_xiaosi_import_named() {
    let imp = Import {
        def: None,
        imps: Some(Right(vec![
            ImportName::Simple(Ident("alpha".to_string())),
            ImportName::Alias(Ident("beta".to_string()), Ident("bravo".to_string())),
        ])),
        path: "xiaosi".to_string(),
    };
    assert_eq!(
        "import {alpha, beta as bravo} from \"xiaosi\";",
        imp.gen(&GenContext {})
    );
}

#[test]
fn structs_xiaosi_import_side_effect_only() {
    let imp = Import {
        def: None,
        imps: None,
        path: "xiaosi".to_string(),
    };
    assert_eq!("import \"xiaosi\";", imp.gen(&GenContext {}));
}

#[test]
fn negative_number_literal() {
    let ctx = GenContext {};
    assert_eq!(Expr::Literal(Literal::Number(-42)).gen(&ctx), "-42");
    assert_eq!(Expr::Literal(Literal::Number(0)).gen(&ctx), "0");
}

#[test]
fn empty_object_literal() {
    let ctx = GenContext {};
    assert_eq!(Expr::Object(Vec::new()).gen(&ctx), "{}");
}
