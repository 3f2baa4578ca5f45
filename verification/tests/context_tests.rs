use xsrc::context::{Context, ContextLookupError, ContextValue};
use xsrc::se_parser::Expr;

fn lit(s: &str) -> ContextValue {
    ContextValue::Expr(Expr::Lit(s.to_string()))
}

fn prepare_context() -> Context {
    let mut ctx = Context::new("root");
    ctx.add_value(0, "foo", lit("hello"));
    ctx.add_value(0, "bar", lit("world"));
    let child1 = ctx.add_child(0, "child1");
    ctx.add_value(child1, "foo_child1", lit("hello_child1"));
    ctx.add_value(child1, "bar_child1", lit("world_child1"));
    let child2 = ctx.add_child(0, "child2");
    ctx.add_value(child2, "foo_child2", lit("hello_child2"));
    ctx.add_value(child2, "bar_child2", lit("world_child2"));
    ctx
}

#[test]
fn transformer_test_lookup_context() {
    let root_ctx = prepare_context();
    let result = root_ctx
        .lookup(0, &["child1".to_string(), "foo_child1".to_string()])
        .unwrap();
    assert_eq!(result, lit("hello_child1"));
}

#[test]
fn transformer_test_lookup_context_no_such_member() {
    let root_ctx = prepare_context();
    let result = root_ctx
        .lookup(0, &["child1".to_string(), "missing".to_string()])
        .err()
        .unwrap();
    assert_eq!(
        result,
        ContextLookupError::NoSuchMember {
            member: "missing".to_string(),
            context_path: vec!["root".to_string(), "child1".to_string()]
        }
    );
}

#[test]
fn transformer_test_lookup_super() {
    let root_ctx = prepare_context();
    let result = root_ctx
        .lookup(1, &["!super".to_string(), "foo".to_string()])
        .unwrap();
    assert_eq!(result, lit("hello"))
}

#[test]
fn transformer_test_lookup_super_and_child() {
    let root_ctx = prepare_context();
    let result = root_ctx
        .lookup(
            1,
            &[
                "!super".to_string(),
                "child2".to_string(),
                "bar_child2".to_string(),
            ],
        )
        .unwrap();
    assert_eq!(result, lit("world_child2"))
}

#[test]
fn rewriter_test_lookup_context() {
    let root_ctx = prepare_context();
    let result = root_ctx
        .lookup(0, &["child1".to_string(), "foo_child1".to_string()])
        .unwrap();
    assert_eq!(result, lit("hello_child1"));
}

#[test]
fn rewriter_test_lookup_context_no_such_member() {
    let root_ctx = prepare_context();
    let result = root_ctx
        .lookup(0, &["child1".to_string(), "missing".to_string()])
        .err()
        .unwrap();
    assert_eq!(
        result,
        ContextLookupError::NoSuchMember {
            member: "missing".to_string(),
            context_path: vec!["root".to_string(), "child1".to_string()]
        }
    );
}

#[test]
fn rewriter_test_lookup_super() {
    let root_ctx = prepare_context();
    let result = root_ctx
        .lookup(1, &["!super".to_string(), "foo".to_string()])
        .unwrap();
    assert_eq!(result, lit("hello"))
}

#[test]
fn rewriter_test_lookup_super_and_child() {
    let root_ctx = prepare_context();
    let result = root_ctx
        .lookup(
            1,
            &[
                "!super".to_string(),
                "child2".to_string(),
                "bar_child2".to_string(),
            ],
        )
        .unwrap();
    assert_eq!(result, lit("world_child2"))
}

#[test]
fn lookup_empty_key_fails() {
    let root_ctx = prepare_context();
    let result = root_ctx.lookup(0, &[]).err().unwrap();
    assert_eq!(
        result,
        ContextLookupError::EmptyKey {
            context_path: vec!["root".to_string()]
        }
    );
}

#[test]
fn lookup_super_at_root_fails() {
    let root_ctx = prepare_context();
    let result = root_ctx
        .lookup(0, &["!super".to_string(), "foo".to_string()])
        .err()
        .unwrap();
    assert_eq!(
        result,
        ContextLookupError::NoSuchMember {
            member: "!super".to_string(),
            context_path: vec!["root".to_string()]
        }
    );
}

#[test]
fn lookup_on_scalar_value_fails() {
    let root_ctx = prepare_context();
    let result = root_ctx
        .lookup(0, &["foo".to_string(), "extra".to_string()])
        .err()
        .unwrap();
    assert_eq!(
        result,
        ContextLookupError::LookupOnValue {
            member: "foo".to_string(),
            value: lit("hello"),
        }
    );
}

#[test]
fn lookup_error_messages() {
    let root_ctx = prepare_context();
    let err = root_ctx.lookup(0, &[]).err().unwrap();
    assert_eq!(err.message(), "Empty key at root");
    let err = root_ctx
        .lookup(0, &["child1".to_string(), "missing".to_string()])
        .err()
        .unwrap();
    assert_eq!(err.message(), "No member \"missing\" at root.child1");
}
