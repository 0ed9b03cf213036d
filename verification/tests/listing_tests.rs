use rshell::ls_format::{Flag, is_flag, FileKind, format_permissions, append_indicator, LongEntry,
    align_and_format};
use rshell::rm_args::{rm_options, RmPlan};

fn no_flags() -> Flag {
    Flag { a: false, l: false, f: false }
}

#[test]
fn test_is_flag_reads_option_letters() {
    let mut flag = no_flags();
    assert!(is_flag("-la", &mut flag));
    assert!(flag.a);
    assert!(flag.l);
    assert!(!flag.f);

    let mut flag = no_flags();
    assert!(is_flag("-F", &mut flag));
    assert!(flag.f);
}

#[test]
fn test_is_flag_rejects_unknown_letters() {
    let mut flag = no_flags();
    assert!(!is_flag("-x", &mut flag));
    assert!(!flag.a && !flag.l && !flag.f);

    // A bare dash or a double dash is no option group.
    assert!(!is_flag("-", &mut flag));
    assert!(!is_flag("--", &mut flag));
}

#[test]
fn test_is_flag_keeps_earlier_flags() {
    let mut flag = Flag { a: true, l: false, f: false };
    assert!(is_flag("-l", &mut flag));
    assert!(flag.a);
    assert!(flag.l);
}

#[test]
fn test_format_permissions_directory() {
    assert_eq!(format_permissions(FileKind::Directory, 0o755, false), "drwxr-xr-x ");
}

#[test]
fn test_format_permissions_regular_with_xattr() {
    assert_eq!(format_permissions(FileKind::Regular, 0o644, true), "-rw-r--r--+");
}

#[test]
fn test_format_permissions_special_bits() {
    assert_eq!(format_permissions(FileKind::Regular, 0o4755, false), "-rwsr-xr-x ");
    assert_eq!(format_permissions(FileKind::Regular, 0o4655, false), "-rwSr-xr-x ");
    assert_eq!(format_permissions(FileKind::Regular, 0o1757, false), "-rwxr-xrwt ");
    assert_eq!(format_permissions(FileKind::Symlink, 0o777, false), "lrwxrwxrwx ");
}

#[test]
fn test_append_indicator_by_kind() {
    assert_eq!(append_indicator("x".to_string(), FileKind::Directory, 0), "x/");
    assert_eq!(append_indicator("x".to_string(), FileKind::Symlink, 0), "x@");
    assert_eq!(append_indicator("x".to_string(), FileKind::Fifo, 0), "x|");
    assert_eq!(append_indicator("x".to_string(), FileKind::Socket, 0), "x=");
    assert_eq!(append_indicator("x".to_string(), FileKind::Regular, 0o755), "x*");
    assert_eq!(append_indicator("x".to_string(), FileKind::Regular, 0o644), "x");
}

fn entry(
    perms: &str,
    links: &str,
    user: &str,
    group: &str,
    size: &str,
    date: &str,
    name: &str,
    blocks: u64,
) -> LongEntry {
    LongEntry {
        perms: perms.to_string(),
        links: links.to_string(),
        user: user.to_string(),
        group: group.to_string(),
        size: size.to_string(),
        date: date.to_string(),
        name: name.to_string(),
        blocks,
    }
}

#[test]
fn test_align_and_format_empty() {
    assert_eq!(align_and_format(Vec::new(), true), "");
}

#[test]
fn test_align_and_format_columns_and_total() {
    let entries = vec![
        entry("-rw-r--r-- ", "1", "alice", "staff", "1234", "Jan 01 10:00", "a.txt", 8),
        entry("drwxr-xr-x ", "12", "bob", "wheel", "96", "Feb 02  2024", "dir", 2),
    ];
    let out = align_and_format(entries, true);
    let expected = "total 5\n\
                    -rw-r--r--   1 alice staff 1234 Jan 01 10:00 a.txt\n\
                    drwxr-xr-x  12 bob   wheel   96 Feb 02  2024 dir\n";
    assert_eq!(out, expected);
}

#[test]
fn test_align_and_format_without_total() {
    let entries = vec![entry("-rw-r--r-- ", "1", "u", "g", "0", "Jan 01 00:00", "f", 0)];
    let out = align_and_format(entries, false);
    assert_eq!(out, "-rw-r--r--  1 u g 0 Jan 01 00:00 f\n");
}

#[test]
fn test_rm_options_short_and_long_recursion() {
    match rm_options(&vec!["-r".to_string(), "a".to_string()]) {
        RmPlan::Run(recursive, targets) => {
            assert!(recursive);
            assert_eq!(targets, vec!["a".to_string()]);
        }
        _ => panic!("Expected a run plan"),
    }
    match rm_options(&vec!["--recursive".to_string(), "x".to_string()]) {
        RmPlan::Run(recursive, targets) => {
            assert!(recursive);
            assert_eq!(targets, vec!["x".to_string()]);
        }
        _ => panic!("Expected a run plan"),
    }
}

#[test]
fn test_rm_options_invalid_option_character() {
    match rm_options(&vec!["-z".to_string(), "a".to_string()]) {
        RmPlan::Invalid(c) => assert_eq!(c, 'z'),
        _ => panic!("Expected the invalid option"),
    }
}

#[test]
fn test_rm_options_plain_targets() {
    match rm_options(&vec!["a".to_string(), "b".to_string()]) {
        RmPlan::Run(recursive, targets) => {
            assert!(!recursive);
            assert_eq!(targets, vec!["a".to_string(), "b".to_string()]);
        }
        _ => panic!("Expected a run plan"),
    }
}
