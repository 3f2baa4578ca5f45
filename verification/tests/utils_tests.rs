use xsrc::schema::split_child_key;
use xsrc::utils::{indent, Either};

#[derive(Debug, PartialEq)]
struct X {
    x: u32,
}

#[test]
fn test_ownership() {
    let x1 = X { x: 1 };
    let x2 = X { x: 2 };
    let xs = vec![x1, x2];
    for x in &xs {
        let z = x;
        let _ = z;
    }
    assert_eq!(xs[0], X { x: 1 })
}

#[test]
fn indent_should_work() {
    let code = "\
hello
world";
    let expected = "    hello
    world";
    assert_eq!(indent(code, "    "), expected);
}

#[test]
fn either_sides() {
    let l: Either<u32, bool> = Either::Left(1);
    let r: Either<u32, bool> = Either::Right(true);
    assert!(l.is_left());
    assert!(!l.is_right());
    assert!(r.is_right());
    assert!(!r.is_left());
}

#[test]
fn child_keys_classify_groups() {
    assert_eq!(split_child_key("~users"), (true, "users".to_string()));
    assert_eq!(split_child_key("get"), (false, "get".to_string()));
    assert_eq!(split_child_key(""), (false, "".to_string()));
    assert_eq!(split_child_key("~"), (true, "".to_string()));
}
