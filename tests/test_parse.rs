use permission_check::parse;

#[test]
fn test_parse() {
    parse(&"a.b.c.***.d".to_string()).unwrap();
}
