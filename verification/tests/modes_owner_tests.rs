use oab_utils::modes::metadata_error;
use oab_utils::modes::mode_change_needed;
use oab_utils::modes::parse_mode;
use oab_utils::modes::set_mode_error;
use oab_utils::numerals::parse_u32_radix;
use oab_utils::numerals::u32_to_radix;
use oab_utils::owner::chown_outcome;
use oab_utils::owner::effective_gid;

#[test]
fn differing_bits_require_a_change() {
    assert!(mode_change_needed(0o600, 0o644));
}

#[test]
fn equal_bits_require_no_change() {
    assert!(!mode_change_needed(0o644, 0o644));
}

#[test]
fn file_type_bits_are_ignored_in_the_comparison() {
    assert!(!mode_change_needed(0o100644, 0o644));
    assert!(mode_change_needed(0o100600, 0o644));
}

#[test]
fn special_bits_of_the_request_are_ignored_in_the_comparison() {
    assert!(!mode_change_needed(0o644, 0o7644));
}

#[test]
fn second_application_of_a_mode_is_a_no_op() {
    let requested: u32 = 0o644;
    assert!(mode_change_needed(0o600, requested));
    let after = requested & 0o7777;
    assert!(!mode_change_needed(after, requested));
}

#[test]
fn octal_mode_string_parses() {
    assert_eq!(parse_mode("644").unwrap(), 0o644);
    assert_eq!(parse_mode("777").unwrap(), 0o777);
    assert_eq!(parse_mode("0").unwrap(), 0);
}

#[test]
fn non_octal_mode_string_fails_with_diagnostic() {
    let e = parse_mode("worldwritable").unwrap_err();
    assert_eq!(e.message, "error parsing input worldwritable");
    assert!(parse_mode("8").is_err());
    assert!(parse_mode("").is_err());
}

#[test]
fn decimal_parse_matches_the_platform_conversion() {
    assert_eq!(parse_u32_radix("0", 10), Some(0));
    assert_eq!(parse_u32_radix("007", 10), Some(7));
    assert_eq!(parse_u32_radix("+123", 10), Some(123));
    assert_eq!(parse_u32_radix("4294967295", 10), Some(u32::MAX));
    assert_eq!(parse_u32_radix("4294967296", 10), None);
    assert_eq!(parse_u32_radix("", 10), None);
    assert_eq!(parse_u32_radix("+", 10), None);
    assert_eq!(parse_u32_radix("-1", 10), None);
    assert_eq!(parse_u32_radix("12a", 10), None);
    assert_eq!(parse_u32_radix(" 7", 10), None);
}

#[test]
fn rendering_is_the_inverse_of_parsing() {
    assert_eq!(u32_to_radix(420, 8), "644");
    assert_eq!(u32_to_radix(0, 10), "0");
    assert_eq!(u32_to_radix(511, 8), "777");
    assert_eq!(u32_to_radix(4294967295, 10), "4294967295");
    assert_eq!(parse_u32_radix(&u32_to_radix(98765, 10), 10), Some(98765));
}

#[test]
fn metadata_failure_names_path_and_cause() {
    let e = metadata_error("/tmp/f", "permission denied");
    assert_eq!(e.message, "error getting permissions for /tmp/f: permission denied");
}

#[test]
fn mode_set_failure_names_mode_in_octal() {
    let e = set_mode_error("/tmp/f", 0o644, "read-only file system");
    assert_eq!(e.message, "unable to set mode 644 on path /tmp/f: read-only file system");
}

#[test]
fn group_from_token_wins_over_current_group() {
    assert_eq!(effective_gid(Some(50), 7), 50);
}

#[test]
fn absent_group_side_preserves_current_group() {
    assert_eq!(effective_gid(None, 7), 7);
}

#[test]
fn successful_ownership_change_reports_ok() {
    assert!(chown_outcome("/tmp/f", 1000, 50, 0).is_ok());
}

#[test]
fn failed_ownership_change_names_path_and_ids() {
    let e = chown_outcome("/tmp/f", 1000, 50, -1).unwrap_err();
    assert_eq!(e.message, "unable to change owner of /tmp/f to 1000:50");
}
