use permission_check::{expr_parse, parse, ComplexCheck, PermissionGroup};

#[test]
fn test_generation() {
    parse(&"a.b.cd.***.b.1974.add".to_string()).unwrap();
    parse(&"a.inner.*.test".to_string()).unwrap();
    parse(&"a.false".to_string()).unwrap();
    parse(&"false.true.pub".to_string()).unwrap();
    parse(&"test.\"1\"".to_string()).unwrap();
    expr_parse(&"test.\"1\"".to_string()).unwrap();
}

#[test]
fn test_other() {
    let checker = ComplexCheck::new(expr_parse(&"test.abc.1 | test.abc.2".to_string()).unwrap());
    let group: PermissionGroup = vec![parse(&"test.abc.1".to_string()).unwrap()].into();
    let result = checker.with_perm(&group);
    assert_eq!(result, true);
}
