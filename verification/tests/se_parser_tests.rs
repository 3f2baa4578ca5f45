use xsrc::se_parser::{
    collect_exprs, ident_to_member, parse_expr, parse_ref, parse_param, Expr, Member, Param,
    ParserError,
};

#[test]
fn se_parser_test_parse_ref() {
    let some_ref = "{a.$b.c}";
    let result = parse_ref(&some_ref, 0);
    let member = (&["a", "$b", "c"])
        .iter()
        .map(|s| Member::Member(s.to_string()))
        .collect::<Vec<_>>();
    assert_eq!(result.unwrap().0, Expr::Ref(member));
}

#[test]
fn se_parser_test_parse_ref_malformed() {
    let some_ref = "{.hello}";
    let result = parse_ref(&some_ref, 0);
    let err = result.err().unwrap();
    assert_eq!(err, ParserError::UnexpectedToken('.'.to_string(), 1));
}

#[test]
fn se_parser_test_parse_ref_malformed2() {
    let some_ref = "{hello..world}";
    let result = parse_ref(&some_ref, 0);
    let err = result.err().unwrap();
    assert_eq!(err, ParserError::UnexpectedToken('.'.to_string(), 7));
}

#[test]
fn se_parser_test_parse_ref_unterminated() {
    let some_ref = "{";
    let result = parse_ref(&some_ref, 0);
    let err = result.err().unwrap();
    assert_eq!(err, ParserError::UnexpectedEOF);
}

#[test]
fn se_parser_test_parse_param() {
    let some_param = "hello:world>";
    let result = parse_param(&some_param, 0);
    let (expr, param, pos) = result.unwrap();
    assert_eq!(expr, Expr::Var("hello".to_string()));
    assert_eq!(
        param,
        Param {
            name: "hello".to_string(),
            typ: Some("world".to_string())
        }
    );
    assert_eq!(pos, 12);
}

#[test]
fn se_parser_test_parse_param_no_type() {
    let some_param = "hello>";
    let result = parse_param(&some_param, 0);
    let (expr, param, pos) = result.unwrap();
    assert_eq!(expr, Expr::Var("hello".to_string()));
    assert_eq!(
        param,
        Param {
            name: "hello".to_string(),
            typ: None
        }
    );
    assert_eq!(pos, 6);
}

#[test]
fn se_parser_test_parse_param_no_var() {
    let some_param = ":world>";
    let result = parse_param(&some_param, 0);
    let err = result.err().unwrap();
    assert_eq!(err, ParserError::UnexpectedToken(':'.to_string(), 0));
}

#[test]
fn se_parser_test_parse_param_colon_no_type() {
    let some_param = "hello:>";
    let result = parse_param(&some_param, 0);
    let err = result.err().unwrap();
    assert_eq!(err, ParserError::UnexpectedEOF);
}

#[test]
fn test_collect_exprs() {
    let exprs = vec![
        Expr::Lit("Hello".to_string()),
        Expr::Var("World".to_string()),
        Expr::Var("Xiaosi".to_string()),
    ];
    let expected = Expr::Concat(
        Box::new(Expr::Concat(
            Box::new(Expr::Lit("Hello".to_string())),
            Box::new(Expr::Var("World".to_string())),
        )),
        Box::new(Expr::Var("Xiaosi".to_string())),
    );
    assert_eq!(collect_exprs(exprs).unwrap(), expected);
}

#[test]
fn test_parse_expr() {
    let s = "abc${!super.def}<id:gg>";
    let result = parse_expr(s);
    let (expr, params) = result.unwrap();
    assert_eq!(
        expr,
        Expr::Concat(
            Box::new(Expr::Concat(
                Box::new(Expr::Lit("abc".to_string())),
                Box::new(Expr::Ref(vec![
                    Member::Super,
                    Member::Member("def".to_string())
                ]))
            )),
            Box::new(Expr::Var("id".to_string()))
        )
    );
    assert_eq!(
        params,
        vec![Param {
            name: "id".to_string(),
            typ: Some("gg".to_string())
        }]
    );
}

#[test]
fn test_parse_expr_no_var() {
    let s = "abc${super.def}<:gg>";
    let result = parse_expr(s);
    let err = result.err().unwrap();
    assert_eq!(err, ParserError::UnexpectedToken(':'.to_string(), 16))
}

#[test]
fn empty_expression_is_rejected() {
    assert_eq!(parse_expr("").err().unwrap(), ParserError::EmptyExpr);
}

#[test]
fn bare_backslash_at_end_is_eof() {
    assert_eq!(parse_expr("abc\\").err().unwrap(), ParserError::UnexpectedEOF);
}

#[test]
fn empty_reference_reports_brace() {
    assert_eq!(
        parse_expr("${}").err().unwrap(),
        ParserError::UnexpectedToken('}'.to_string(), 2)
    );
}

#[test]
fn double_dot_reports_second_dot() {
    assert_eq!(
        parse_expr("${a..b}").err().unwrap(),
        ParserError::UnexpectedToken('.'.to_string(), 4)
    );
}

#[test]
fn unclosed_reference_is_eof() {
    assert_eq!(parse_expr("${").err().unwrap(), ParserError::UnexpectedEOF);
}

#[test]
fn param_without_name_reports_colon() {
    assert_eq!(
        parse_expr("<:type>").err().unwrap(),
        ParserError::UnexpectedToken(':'.to_string(), 1)
    );
}

#[test]
fn param_with_empty_type_is_eof() {
    assert_eq!(parse_expr("<name:>").err().unwrap(), ParserError::UnexpectedEOF);
}

#[test]
fn bare_param_yields_var_and_untyped_param() {
    let (expr, params) = parse_expr("<name>").unwrap();
    assert_eq!(expr, Expr::Var("name".to_string()));
    assert_eq!(
        params,
        vec![Param {
            name: "name".to_string(),
            typ: None
        }]
    );
}

#[test]
fn duplicate_param_in_one_expression() {
    assert_eq!(
        parse_expr("<a:int><a:str>").err().unwrap(),
        ParserError::DuplicateParam("a".to_string())
    );
}

#[test]
fn literal_only_round_trip() {
    let (expr, params) = parse_expr("abc").unwrap();
    assert_eq!(expr, Expr::Lit("abc".to_string()));
    assert!(params.is_empty());
}

#[test]
fn escapes_keep_literal_characters() {
    let (expr, params) = parse_expr("a\\$b\\<c\\\\d").unwrap();
    assert_eq!(expr, Expr::Lit("a$b<c\\d".to_string()));
    assert!(params.is_empty());
}

#[test]
fn parser_error_messages() {
    assert_eq!(ParserError::EmptyExpr.message(), "Expr is empty");
    assert_eq!(
        ParserError::UnexpectedToken('.'.to_string(), 42).message(),
        "Unexpected token \".\" at pos 42"
    );
    assert_eq!(ParserError::UnexpectedEOF.message(), "Unexpected EOF");
    assert_eq!(
        ParserError::DuplicateParam("id".to_string()).message(),
        "Duplicate param \"id\""
    );
}

#[test]
fn ident_to_member_distinguishes_super() {
    assert_eq!(ident_to_member("!super"), Member::Super);
    assert_eq!(ident_to_member("url"), Member::Member("url".to_string()));
}

#[test]
fn param_new_copies_name() {
    let p = Param::new("page", Some("int".to_string()));
    assert_eq!(
        p,
        Param {
            name: "page".to_string(),
            typ: Some("int".to_string())
        }
    );
}
