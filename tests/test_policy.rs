use permission_check::{
    expr_parse, parse, ComplexCheck, ItemExpr, PermissionGroup, PermissionItem,
    PermissionParseError,
};

fn policy(text: &str) -> ItemExpr {
    expr_parse(&text.to_string()).unwrap()
}

fn group(paths: &[&str]) -> PermissionGroup {
    let items: Vec<PermissionItem> = paths.iter().map(|p| parse(&p.to_string()).unwrap()).collect();
    items.into()
}

fn holds(text: &str, paths: &[&str]) -> bool {
    ComplexCheck::from(&policy(text)).with_perm(&group(paths))
}

#[test]
fn bracketed_alternatives() {
    let expr = policy("(role.admin.enact | role.owner.enact)");
    assert!(matches!(expr, ItemExpr::Bracketed(_)));
    let checker = ComplexCheck::from(&expr);
    assert_eq!(checker.with_perm(&group(&["role.owner.enact"])), true);
    assert_eq!(checker.with_perm(&group(&["role.member"])), false);
}

#[test]
fn compiling_twice_agrees() {
    let expr = policy("a.b & !(c ^ d.*)");
    let first = ComplexCheck::from(&expr);
    let second = ComplexCheck::from(&expr);
    for paths in [&["a.b"][..], &["a.b", "c"], &["a.b", "d"], &["a.b", "c", "d"], &["a.b", "c", "d.1"], &[]] {
        assert_eq!(first.with_perm(&group(paths)), second.with_perm(&group(paths)));
    }
    assert_eq!(first.with_perm(&group(&["a.b"])), true);
    assert_eq!(first.with_perm(&group(&["a.b", "c"])), false);
    assert_eq!(first.with_perm(&group(&["a.b", "c", "d"])), true);
    assert_eq!(first.with_perm(&group(&["a.b", "c", "d.1"])), false);
}

#[test]
fn connectives_group_to_the_right() {
    match policy("a & b | c") {
        ItemExpr::And(l, r) => {
            assert!(matches!(*l, ItemExpr::Permission(_)));
            assert!(matches!(*r, ItemExpr::Or(_, _)));
        }
        other => panic!("{:?}", other),
    }
    // Read as `a & (b | c)`, so `c` alone does not satisfy it.
    assert_eq!(holds("a & b | c", &["c"]), false);
    assert_eq!(holds("a & b | c", &["a", "c"]), true);
}

#[test]
fn negation_takes_the_rest() {
    assert!(matches!(policy("!a & b"), ItemExpr::Not(_)));
    assert_eq!(holds("!a & b", &["b"]), true);
    assert_eq!(holds("!a & b", &["a", "b"]), false);
}

#[test]
fn parenthesized_left_operand_stays_bracketed() {
    match policy("(a) && b") {
        ItemExpr::And(l, _) => assert!(matches!(*l, ItemExpr::Bracketed(_))),
        other => panic!("{:?}", other),
    }
    match policy("(a | b) ^ c") {
        ItemExpr::Xor(l, r) => {
            match *l {
                ItemExpr::Bracketed(inner) => assert!(matches!(*inner, ItemExpr::Or(_, _))),
                other => panic!("{:?}", other),
            }
            assert!(matches!(*r, ItemExpr::Permission(_)));
        }
        other => panic!("{:?}", other),
    }
    assert!(matches!(policy("(a)"), ItemExpr::Bracketed(_)));
    assert_eq!(holds("(a | b) ^ c", &["a"]), true);
    assert_eq!(holds("(a | b) ^ c", &["b", "c"]), false);
}

#[test]
fn every_connective() {
    assert_eq!(holds("a && b", &["a", "b"]), true);
    assert_eq!(holds("a & b", &["a"]), false);
    assert_eq!(holds("a || b", &["b"]), true);
    assert_eq!(holds("a | b", &[]), false);
    assert_eq!(holds("a ^ b", &["a"]), true);
    assert_eq!(holds("a ^ b", &["a", "b"]), false);
    assert_eq!(holds("!a", &[]), true);
}

#[test]
fn policy_errors() {
    assert_eq!(expr_parse(&"a &&".to_string()).unwrap_err(), PermissionParseError::InvalidToken { at: 4 });
    assert_eq!(expr_parse(&"(a".to_string()).unwrap_err(), PermissionParseError::InvalidToken { at: 2 });
    assert_eq!(expr_parse(&"a b".to_string()).unwrap_err(), PermissionParseError::InvalidToken { at: 2 });
    assert_eq!(expr_parse(&"".to_string()).unwrap_err(), PermissionParseError::InvalidToken { at: 0 });
    assert!(matches!(
        expr_parse(&"x | a.read.b".to_string()).unwrap_err(),
        PermissionParseError::AfterSpecifier { .. }
    ));
}

#[test]
fn new_takes_the_policy() {
    let checker = ComplexCheck::new(policy("a.*"));
    assert_eq!(checker.with_perm(&group(&["a.1"])), false);
    assert_eq!(checker.with_perm(&group(&["a"])), true);
}

#[test]
fn word_not_negates() {
    assert!(matches!(policy("not a & b"), ItemExpr::Not(_)));
    assert!(matches!(policy("not(a)"), ItemExpr::Not(_)));
    assert!(matches!(policy("not !a"), ItemExpr::Not(_)));
    assert_eq!(holds("not a", &[]), true);
    assert_eq!(holds("not a", &["a"]), false);
}

#[test]
fn word_not_as_a_name() {
    assert!(matches!(policy("not.read"), ItemExpr::Permission(_)));
    assert!(matches!(policy("not"), ItemExpr::Permission(_)));
    assert!(matches!(policy("not & a"), ItemExpr::And(_, _)));
    assert!(matches!(policy("nothing"), ItemExpr::Permission(_)));
    assert_eq!(holds("not.read", &["not"]), true);
}
