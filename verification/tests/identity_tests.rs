use oab_utils::identity::check_no_nul;
use oab_utils::identity::group_lookup_outcome;
use oab_utils::identity::parse_id_input;
use oab_utils::identity::resolved_pair;
use oab_utils::identity::user_lookup_outcome;
use oab_utils::identity::IdRef;
use oab_utils::OabError;

fn is_num(r: &IdRef, n: u32) -> bool {
    matches!(r, IdRef::Num(v) if *v == n)
}

fn is_name(r: &IdRef, s: &str) -> bool {
    matches!(r, IdRef::Name(v) if v == s)
}

#[test]
fn numeric_token_gives_uid_and_no_group() {
    let p = parse_id_input("1000");
    assert!(is_num(&p.user, 1000));
    assert!(p.group.is_none());
}

#[test]
fn numeric_token_with_plus_sign() {
    let p = parse_id_input("+42");
    assert!(is_num(&p.user, 42));
    assert!(p.group.is_none());
}

#[test]
fn largest_id_still_numeric() {
    let p = parse_id_input("4294967295");
    assert!(is_num(&p.user, 4294967295));
    assert!(p.group.is_none());
}

#[test]
fn overflowing_token_is_a_name() {
    let p = parse_id_input("4294967296");
    assert!(is_name(&p.user, "4294967296"));
    assert!(p.group.is_none());
}

#[test]
fn symbolic_token_is_a_name() {
    let p = parse_id_input("alice");
    assert!(is_name(&p.user, "alice"));
    assert!(p.group.is_none());
}

#[test]
fn pair_token_both_numeric() {
    let p = parse_id_input("1000:50");
    assert!(is_num(&p.user, 1000));
    assert!(is_num(p.group.as_ref().unwrap(), 50));
}

#[test]
fn pair_token_numeric_and_name() {
    let p = parse_id_input("1000:staff");
    assert!(is_num(&p.user, 1000));
    assert!(is_name(p.group.as_ref().unwrap(), "staff"));
}

#[test]
fn pair_token_both_names() {
    let p = parse_id_input("alice:staff");
    assert!(is_name(&p.user, "alice"));
    assert!(is_name(p.group.as_ref().unwrap(), "staff"));
}

#[test]
fn empty_sides_become_empty_names() {
    let p = parse_id_input(":");
    assert!(is_name(&p.user, ""));
    assert!(is_name(p.group.as_ref().unwrap(), ""));
}

#[test]
fn trailing_colon_gives_empty_group_name() {
    let p = parse_id_input("alice:");
    assert!(is_name(&p.user, "alice"));
    assert!(is_name(p.group.as_ref().unwrap(), ""));
}

#[test]
fn split_happens_at_first_colon_only() {
    let p = parse_id_input("a:b:c");
    assert!(is_name(&p.user, "a"));
    assert!(is_name(p.group.as_ref().unwrap(), "b:c"));
}

#[test]
fn name_without_nul_is_accepted() {
    assert!(check_no_nul("alice").is_ok());
    assert!(check_no_nul("").is_ok());
}

#[test]
fn name_with_nul_is_rejected() {
    let e = check_no_nul("ali\0ce").unwrap_err();
    assert_eq!(e.message, "nul byte found in provided data");
}

#[test]
fn found_user_resolves_to_its_uid() {
    assert_eq!(user_lookup_outcome("alice", Some(7)).unwrap(), 7);
}

#[test]
fn missing_user_fails_with_diagnostic() {
    let e = user_lookup_outcome("nonexistentuser", None).unwrap_err();
    assert_eq!(e.message, "no uid found for user nonexistentuser");
}

#[test]
fn found_group_resolves_to_its_gid() {
    assert_eq!(group_lookup_outcome("staff", Some(50)).unwrap(), 50);
}

#[test]
fn missing_group_fails_with_diagnostic() {
    let e = group_lookup_outcome("nogroup", None).unwrap_err();
    assert_eq!(e.message, "no gid found for group nogroup");
}

#[test]
fn resolved_pair_combines_both_sides() {
    let r = resolved_pair(Ok(1000), Some(Ok(50))).unwrap();
    assert_eq!(r, (1000, Some(50)));
}

#[test]
fn resolved_pair_without_group_side() {
    let r = resolved_pair(Ok(1000), None).unwrap();
    assert_eq!(r, (1000, None));
}

#[test]
fn resolved_pair_propagates_user_failure() {
    let err = OabError { message: String::from("no uid found for user x") };
    let r = resolved_pair(Err(err), Some(Ok(50)));
    assert_eq!(r.unwrap_err().message, "no uid found for user x");
}

#[test]
fn resolved_pair_propagates_group_failure() {
    let err = OabError { message: String::from("no gid found for group y") };
    let r = resolved_pair(Ok(1000), Some(Err(err)));
    assert_eq!(r.unwrap_err().message, "no gid found for group y");
}
