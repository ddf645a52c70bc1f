use permission_check::{expr_parse, parse, ComplexCheck, ItemExpr, PermissionGroup, PermissionParseError};

fn one(path: &str) -> Result<PermissionGroup, PermissionParseError> {
    Ok(vec![parse(&path.to_string())?].into())
}

#[test]
fn test_expr() -> Result<(), PermissionParseError> {
    let expr: ItemExpr = expr_parse(
        &"((org.1047.role.admin.enact | org.1047.role.owner.enact) | (org.1047.user.write && (org.1047.user.read | org.1047.user.read_one)) | (org.1047.user.243.read && org.1047.user.243.write)) &
        !(user.blacklist.enact & !user.blacklist.*)".to_string()).unwrap();
    let checker = ComplexCheck::from(&expr);
    assert_eq!(checker.with_perm(&one("org.1047.user.243")?), true);
    assert_eq!(checker.with_perm(&one("org.1048.user.243")?), false);
    assert_eq!(checker.with_perm(&one("org.1047.user.244")?), false);
    assert_eq!(checker.with_perm(&one("org.1047.role.owner")?), true);
    assert_eq!(checker.with_perm(&one("org.1048.role.owner")?), false);
    assert_eq!(checker.with_perm(&one("org")?), true);
    assert_eq!(checker.with_perm(&one("*")?), true);
    assert_eq!(checker.with_perm(&one("org.1047")?), true);
    assert_eq!(checker.with_perm(&one("org.1048")?), false);
    assert_eq!(
        checker.with_perm(&vec![parse(&"org.1047.user.243.read".to_string())?].into()),
        false
    );
    assert_eq!(
        checker.with_perm(
            &vec![
                parse(&"org.1047.user.243.read".to_string())?,
                parse(&"org.1047.user.243.write".to_string())?
            ]
            .into()
        ),
        true
    );
    assert_eq!(
        checker.with_perm(
            &vec![
                parse(&"org.1047.user.write".to_string())?,
                parse(&"org.1047.user.read".to_string())?
            ]
            .into()
        ),
        true
    );
    assert_eq!(
        checker.with_perm(
            &vec![
                parse(&"org.1047.user.write".to_string())?,
                parse(&"org.1047.user.read_one".to_string())?
            ]
            .into()
        ),
        true
    );
    assert_eq!(
        checker.with_perm(
            &vec![
                parse(&"org.1047.user.write".to_string())?,
                parse(&"org.1047.user.assign".to_string())?
            ]
            .into()
        ),
        false
    );
    assert_eq!(
        checker.with_perm(
            &vec![
                parse(&"org.1047.role.owner".to_string())?,
                parse(&"user.blacklist.enact".to_string())?
            ]
            .into()
        ),
        false
    );
    assert_eq!(
        checker.with_perm(
            &vec![
                parse(&"org.1047.role.owner".to_string())?,
                parse(&"user.blacklist.***".to_string())?
            ]
            .into()
        ),
        true
    );
    Ok(())
}

#[test]
fn test_var_kind_err() {
    assert_eq!(parse(&"user.blacklist.***".to_string()).is_err(), false);
    assert_eq!(parse(&"user.blacklist.{user_id}".to_string()).is_err(), true);
    assert_eq!(expr_parse(
        &"((org.1047.role.admin.enact | org.1047.role.owner.enact) | (org.1047.user.write && (org.1047.user.read | org.1047.user.read_one)) | (org.1047.user.243.read && org.1047.user.243.write)) &
        !(user.blacklist.enact & !user.blacklist.{user_id})".to_string()).is_err(), true);
}
