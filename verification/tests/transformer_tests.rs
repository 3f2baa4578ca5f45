use linked_hash_map::LinkedHashMap;
use xsrc::context::{Context, ContextValue};
use xsrc::schema::{APIData, APIDataMap, APISchema, APISetSchema, RootSchema};
use xsrc::se_parser::{Expr, Member, Param, ParserError};
use xsrc::transformer::{
    transform, ContextBoundedAPI, ContextBoundedAPIData, ContextBoundedAPISet, ContextBoundedRoot,
    HttpMethod, TransformerError,
};

fn no_opts() -> LinkedHashMap<String, Option<String>> {
    LinkedHashMap::new()
}

fn param_map(entries: &[(&str, Option<&str>)]) -> LinkedHashMap<String, Param> {
    let mut m = LinkedHashMap::new();
    for (k, t) in entries {
        m.insert(
            k.to_string(),
            Param {
                name: k.to_string(),
                typ: t.map(|x| x.to_string()),
            },
        );
    }
    m
}

#[test]
fn test_transform() {
    let schema = RootSchema {
        url: Some("http://ratina.org/<id:int>".to_string()),
        klsname: "RatinaClient".to_string(),
        apisets: APIDataMap(vec![
            (
                "ahcro".to_string(),
                APIData::API(APISchema {
                    method: "GET".to_string(),
                    url: "${!super.url}/<ahcroId:uuid>".to_string(),
                    params: no_opts(),
                    data: no_opts(),
                }),
            ),
            (
                "ratincren".to_string(),
                APIData::APISet(APISetSchema {
                    url: "${!super.url}/ratincren".to_string(),
                    apisets: APIDataMap(vec![(
                        "get".to_string(),
                        APIData::API(APISchema {
                            method: "GET".to_string(),
                            url: "${!super.url}/<name:string>".to_string(),
                            params: no_opts(),
                            data: no_opts(),
                        }),
                    )]),
                }),
            ),
        ]),
    };
    let root_ast = transform(schema).unwrap();
    let mut expected_ctx = Context::new("RatinaClient");
    let ahcro_ctx = expected_ctx.add_child(0, "ahcro");
    let ratincren_ctx = expected_ctx.add_child(0, "ratincren");
    let ratincren_get_ctx = expected_ctx.add_child(ratincren_ctx, "get");
    assert_eq!(
        root_ast,
        ContextBoundedRoot {
            klsname: "RatinaClient".to_string(),
            url: ContextValue::Expr(Expr::Concat(
                Box::new(Expr::Lit("http://ratina.org/".to_string())),
                Box::new(Expr::Var("id".to_string()))
            )),
            bounded_vars: param_map(&[("id", Some("int"))]),
            apisets: vec![
                (
                    "ahcro".to_string(),
                    ContextBoundedAPIData::API(ContextBoundedAPI {
                        name: "ahcro".to_string(),
                        method: HttpMethod::from_str("GET"),
                        url: ContextValue::Expr(Expr::Concat(
                            Box::new(Expr::Concat(
                                Box::new(Expr::Ref(vec![
                                    Member::Super,
                                    Member::Member("url".to_string())
                                ])),
                                Box::new(Expr::Lit("/".to_string()))
                            )),
                            Box::new(Expr::Var("ahcroId".to_string()))
                        )),
                        bounded_vars: param_map(&[("ahcroId", Some("uuid"))]),
                        params: param_map(&[]),
                        data: param_map(&[]),
                        context: ahcro_ctx,
                    })
                ),
                (
                    "ratincren".to_string(),
                    ContextBoundedAPIData::APISet(ContextBoundedAPISet {
                        name: "ratincren".to_string(),
                        url: ContextValue::Expr(Expr::Concat(
                            Box::new(Expr::Ref(vec![
                                Member::Super,
                                Member::Member("url".to_string())
                            ])),
                            Box::new(Expr::Lit("/ratincren".to_string()))
                        )),
                        bounded_vars: param_map(&[]),
                        apisets: vec![(
                            "get".to_string(),
                            ContextBoundedAPIData::API(ContextBoundedAPI {
                                name: "get".to_string(),
                                method: HttpMethod::from_str("GET"),
                                url: ContextValue::Expr(Expr::Concat(
                                    Box::new(Expr::Concat(
                                        Box::new(Expr::Ref(vec![
                                            Member::Super,
                                            Member::Member("url".to_string())
                                        ])),
                                        Box::new(Expr::Lit("/".to_string()))
                                    )),
                                    Box::new(Expr::Var("name".to_string()))
                                )),
                                bounded_vars: param_map(&[("name", Some("string"))]),
                                params: param_map(&[]),
                                data: param_map(&[]),
                                context: ratincren_get_ctx,
                            })
                        )],
                        context: ratincren_ctx,
                    })
                ),
            ],
            context: expected_ctx,
        }
    );
}

#[test]
fn duplicate_parameter_between_url_and_params() {
    let mut params = LinkedHashMap::new();
    params.insert("id".to_string(), Some("int".to_string()));
    let schema = RootSchema {
        url: Some("http://x/".to_string()),
        klsname: "XSClient".to_string(),
        apisets: APIDataMap(vec![(
            "get".to_string(),
            APIData::API(APISchema {
                method: "GET".to_string(),
                url: "<id:int>".to_string(),
                params,
                data: no_opts(),
            }),
        )]),
    };
    let err = transform(schema).err().unwrap();
    assert_eq!(
        err,
        TransformerError::ParserError(ParserError::DuplicateParam("id".to_string()))
    );
    assert_eq!(err.message(), "Parser error: Duplicate param \"id\"");
}

#[test]
fn synthesized_root_url_parameter() {
    let schema = RootSchema {
        url: None,
        klsname: "XSClient".to_string(),
        apisets: APIDataMap(Vec::new()),
    };
    let root = transform(schema).unwrap();
    assert_eq!(root.url, ContextValue::Expr(Expr::Var("url".to_string())));
    assert_eq!(
        root.bounded_vars,
        param_map(&[("url", Some("string"))])
    );
}

#[test]
fn merged_bound_vars_keep_declaration_order() {
    let mut params = LinkedHashMap::new();
    params.insert("page".to_string(), Some("int".to_string()));
    let mut data = LinkedHashMap::new();
    data.insert("name".to_string(), Some("string".to_string()));
    let schema = RootSchema {
        url: Some("http://x/".to_string()),
        klsname: "XSClient".to_string(),
        apisets: APIDataMap(vec![(
            "post".to_string(),
            APIData::API(APISchema {
                method: "POST".to_string(),
                url: "${!super.url}/<kind:string>".to_string(),
                params,
                data,
            }),
        )]),
    };
    let root = transform(schema).unwrap();
    match &root.apisets[0].1 {
        ContextBoundedAPIData::API(api) => {
            let names: Vec<&String> = api.bounded_vars.keys().collect();
            assert_eq!(names, vec!["kind", "page", "name"]);
            assert_eq!(api.method, HttpMethod::POST);
        }
        _ => panic!("expected an endpoint"),
    }
}

#[test]
fn method_tags_cover_both_cases() {
    assert_eq!(HttpMethod::from_str("get"), HttpMethod::GET);
    assert_eq!(HttpMethod::from_str("POST"), HttpMethod::POST);
    assert_eq!(HttpMethod::from_str("put"), HttpMethod::PUT);
    assert_eq!(HttpMethod::from_str("DELETE"), HttpMethod::DELETE);
    assert_eq!(HttpMethod::from_str("head"), HttpMethod::HEAD);
    assert_eq!(HttpMethod::from_str("OPTIONS"), HttpMethod::OPTIONS);
    assert_eq!(HttpMethod::from_str("patch"), HttpMethod::PATCH);
}
