use linked_hash_map::LinkedHashMap;
use xsrc::javascript::GenContext;
use xsrc::rewriter::gen;
use xsrc::schema::{APIData, APIDataMap, APISchema, APISetSchema, RootSchema};
use xsrc::transformer::transform;

fn no_opts() -> LinkedHashMap<String, Option<String>> {
    LinkedHashMap::new()
}

fn emit(schema: RootSchema) -> String {
    let root = transform(schema).unwrap();
    let gen_ctx = GenContext {};
    gen(&root, &gen_ctx)
}

#[test]
fn test_gen() {
    let schema = RootSchema {
        url: None,
        klsname: "XSClient".to_string(),
        apisets: APIDataMap(Vec::new()),
    };
    let code = emit(schema);
    println!("{}", code);
    assert!(code.starts_with("import axios from \"axios\";\n"));
    assert!(code.ends_with("\n"));
}

#[test]
fn empty_root_emission() {
    let schema = RootSchema {
        url: None,
        klsname: "XSClient".to_string(),
        apisets: APIDataMap(Vec::new()),
    };
    let code = emit(schema);
    assert_eq!(
        code,
        "import axios from \"axios\";\n\
         export default class XSClient {\n\
         constructor(url) {\n\
         this._url = url;\n\
         }\n\
         get url() {\n\
         return this._url;\n\
         }\n\
         }\n"
    );
}

#[test]
fn single_endpoint_emission() {
    let schema = RootSchema {
        url: Some("http://x/".to_string()),
        klsname: "XSClient".to_string(),
        apisets: APIDataMap(vec![(
            "get".to_string(),
            APIData::API(APISchema {
                method: "GET".to_string(),
                url: "${!super.url}/items".to_string(),
                params: no_opts(),
                data: no_opts(),
            }),
        )]),
    };
    let code = emit(schema);
    assert!(code.contains("constructor() {\nthis._url = \"http://x/\";\n}"));
    assert!(code.contains(
        "async get() {\nreturn axios({ method: \"get\", url: (this._super.url) + (\"/items\") });\n}"
    ));
}

#[test]
fn parameterized_endpoint_emission() {
    let schema = RootSchema {
        url: Some("http://x/<id:int>".to_string()),
        klsname: "XSClient".to_string(),
        apisets: APIDataMap(vec![(
            "get".to_string(),
            APIData::API(APISchema {
                method: "GET".to_string(),
                url: "${!super.url}/<name:string>".to_string(),
                params: no_opts(),
                data: no_opts(),
            }),
        )]),
    };
    let code = emit(schema);
    assert!(code.contains("constructor(id) {\nthis._id = id;\n}"));
    assert!(code.contains("get url() {\nreturn this._url;\n}"));
    assert!(code.contains(
        "async get(name) {\nreturn axios({ method: \"get\", url: ((this._super.url) + (\"/\")) + (name) });\n}"
    ));
}

#[test]
fn nested_group_emission() {
    let schema = RootSchema {
        url: Some("http://x/".to_string()),
        klsname: "XSClient".to_string(),
        apisets: APIDataMap(vec![(
            "users".to_string(),
            APIData::APISet(APISetSchema {
                url: "${!super.url}/users".to_string(),
                apisets: APIDataMap(vec![(
                    "get".to_string(),
                    APIData::API(APISchema {
                        method: "GET".to_string(),
                        url: "${!super.url}/<uid:int>".to_string(),
                        params: no_opts(),
                        data: no_opts(),
                    }),
                )]),
            }),
        )]),
    };
    let code = emit(schema);
    let group_class = "class users {\n\
                       constructor(_super) {\n\
                       this._super = _super;\n\
                       this._url = (this._super.url) + (\"/users\");\n\
                       }\n\
                       async get(uid) {\n\
                       return axios({ method: \"get\", url: ((this._super.url) + (\"/\")) + (uid) });\n\
                       }\n\
                       }";
    assert!(code.contains(group_class));
    // the group's class is declared before the root class that instantiates it
    let group_pos = code.find("class users").unwrap();
    let root_pos = code.find("export default class XSClient").unwrap();
    assert!(group_pos < root_pos);
    assert!(code.contains("get users() {\nreturn new users(this);\n}"));
}

#[test]
fn query_and_body_emission() {
    let mut params = LinkedHashMap::new();
    params.insert("page".to_string(), Some("int".to_string()));
    let mut data = LinkedHashMap::new();
    data.insert("name".to_string(), Some("string".to_string()));
    let schema = RootSchema {
        url: Some("http://x/".to_string()),
        klsname: "XSClient".to_string(),
        apisets: APIDataMap(vec![(
            "post".to_string(),
            APIData::API(APISchema {
                method: "POST".to_string(),
                url: "${!super.url}".to_string(),
                params,
                data,
            }),
        )]),
    };
    let code = emit(schema);
    assert!(code.contains(
        "async post(page, name) {\nreturn axios({ method: \"post\", url: this._super.url, params: { page: page }, data: { name: name } });\n}"
    ));
}

#[test]
fn emission_is_stable_across_runs() {
    let make = || RootSchema {
        url: Some("http://x/<id:int>".to_string()),
        klsname: "Stable".to_string(),
        apisets: APIDataMap(vec![(
            "get".to_string(),
            APIData::API(APISchema {
                method: "GET".to_string(),
                url: "${!super.url}/items".to_string(),
                params: no_opts(),
                data: no_opts(),
            }),
        )]),
    };
    assert_eq!(emit(make()), emit(make()));
}

#[test]
fn doubly_nested_groups_emit_post_order() {
    let schema = RootSchema {
        url: Some("http://x/".to_string()),
        klsname: "Deep".to_string(),
        apisets: APIDataMap(vec![(
            "outer".to_string(),
            APIData::APISet(APISetSchema {
                url: "${!super.url}/outer".to_string(),
                apisets: APIDataMap(vec![(
                    "inner".to_string(),
                    APIData::APISet(APISetSchema {
                        url: "${!super.url}/inner".to_string(),
                        apisets: APIDataMap(vec![(
                            "get".to_string(),
                            APIData::API(APISchema {
                                method: "GET".to_string(),
                                url: "${!super.url}".to_string(),
                                params: no_opts(),
                                data: no_opts(),
                            }),
                        )]),
                    }),
                )]),
            }),
        )]),
    };
    let code = emit(schema);
    let inner_pos = code.find("class inner").unwrap();
    let outer_pos = code.find("class outer").unwrap();
    let root_pos = code.find("export default class Deep").unwrap();
    assert!(inner_pos < outer_pos);
    assert!(outer_pos < root_pos);
    assert!(code.contains("get inner() {\nreturn new inner(this);\n}"));
}

#[test]
fn lower_case_method_is_accepted() {
    let schema = RootSchema {
        url: Some("http://x/".to_string()),
        klsname: "XSClient".to_string(),
        apisets: APIDataMap(vec![(
            "probe".to_string(),
            APIData::API(APISchema {
                method: "options".to_string(),
                url: "${!super.url}".to_string(),
                params: no_opts(),
                data: no_opts(),
            }),
        )]),
    };
    let code = emit(schema);
    assert!(code.contains("async probe() {\nreturn axios({ method: \"options\", url: this._super.url });\n}"));
}
