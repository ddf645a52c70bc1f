use permission_check::{check, check_one, parse, PermissionGroup, PermissionItem};

fn parsed(text: &str) -> PermissionItem {
    parse(&text.to_string()).unwrap()
}

fn matches(required: &str, granted: &str) -> bool {
    check_one(&parsed(required), &parsed(granted))
}

#[test]
fn every_path_grants_itself() {
    for p in [
        "perm",
        "perm.1.inner.add",
        "perm.*.inner",
        "perm.**.enact",
        "perm.***",
        "***.test.1",
        "perm.abc.**.***.**.test",
        "a.\"x y\".'c'",
    ] {
        assert!(matches(p, p), "{}", p);
    }
}

#[test]
fn prefix_grants_extension_only() {
    assert!(matches("perm.1.inner.add", "perm.1"));
    assert!(!matches("perm.1", "perm.1.inner.add"));
    assert!(matches("perm.*.x.y", "perm.*"));
    assert!(!matches("perm.*", "perm.*.x.y"));
    assert!(matches("perm.***.x.y", "perm.***"));
    assert!(!matches("perm.***", "perm.***.x.y"));
}

#[test]
fn triple_glob_inside_grant_anchors_the_end() {
    // The grant `***.b` covers paths that end in `b`, not every extension.
    assert!(!matches("***.b.c", "***.b"));
    assert!(matches("x.y.b", "***.b"));
    assert!(matches("***.b.b", "***.b"));
    assert!(!matches("***.b", "***.b.b"));
    // The longer path grants the shorter where its excess is double globs.
    assert!(matches("***.b", "***.**.b"));
}

#[test]
fn single_glob_examples() {
    assert!(matches("perm.1.inner", "perm.*.inner"));
    assert!(!matches("perm.*.inner", "perm.1.inner"));
    assert!(matches("perm.*.inner", "perm.*.inner"));
    assert!(matches("perm.name.inner", "perm.*.inner"));
}

#[test]
fn double_glob_covers_specifiers() {
    assert!(matches("perm.add", "perm.**"));
    assert!(!matches("perm.add", "perm.*"));
    assert!(matches("perm.1", "perm.**"));
    assert!(!matches("perm.**", "perm.1"));
}

#[test]
fn one_sided_triple_glob() {
    assert!(matches("perm.**.abc.test", "perm.***"));
    assert!(matches("perm.abc.**.**.**.test", "perm.***.test"));
    assert!(!matches("perm.abc.**.**.**.other", "perm.***.test"));
}

#[test]
fn two_sided_triple_glob() {
    assert!(!matches("perm.abc.***.abc.test.1", "***.test.2"));
    assert!(matches("perm.**.***.**.test.1", "perm.***.test.1"));
}

#[test]
fn specifiers_match_only_themselves() {
    assert!(matches("a.read", "a.read"));
    assert!(!matches("a.read", "a.write"));
    assert!(matches("a.enact", "a.enact"));
    assert!(!matches("a.enact", "a.assign"));
    assert!(matches("a.read_one", "a.read_one"));
    assert!(!matches("a.read_one", "a.list_all"));
    assert!(!matches("a.1", "a.read"));
}

#[test]
fn ids_and_names_compare_by_value() {
    assert!(matches("a.7", "a.7"));
    assert!(!matches("a.7", "a.8"));
    assert!(!matches("a.7", "a.\"7\""));
    assert!(matches("a.\"7\"", "a.'7'"));
}

#[test]
fn any_grant_of_a_set() {
    let empty: PermissionGroup = Vec::<PermissionItem>::new().into();
    assert!(!check(&parsed("a"), &empty));
    let mut group: PermissionGroup = vec![parsed("b.c"), parsed("a.x")].into();
    assert!(!check(&parsed("a.y"), &group));
    group.add(parsed("a.*"));
    assert_eq!(group.perms.len(), 3);
    assert!(check(&parsed("a.y"), &group));
    assert!(check(&parsed("b.c.d"), &group));
}

#[test]
fn groups_from_one_item_or_a_copy() {
    let item = parsed("a.b");
    let g1: PermissionGroup = (&item).into();
    assert_eq!(g1.perms.len(), 1);
    let g2: PermissionGroup = item.into();
    assert!(check(&parsed("a.b.c"), &g2));
    let g3: PermissionGroup = (&g2).into();
    assert_eq!(g3.perms.len(), 1);
    assert!(check(&parsed("a.b"), &g3));
    assert!(check(&parsed("a.b"), &g1));
}
