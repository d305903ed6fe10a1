use fsdiff::comparator::{
    compare_files, content_identical, decode_security_label, DirMetadata, FileMetadata, FileType,
    SecurityLabelError,
};
use fsdiff::decimal::{u32_to_decimal, u64_to_decimal};
use fsdiff::diff::{
    collect_differences, diff_report, intersection, symmetric_difference, ComparedPair,
};

fn fmeta(mode: u32, uid: u32, gid: u32, size: u64, label: Option<&str>) -> FileMetadata {
    FileMetadata {
        mode,
        uid,
        gid,
        size,
        selinux_label: label.map(|l| l.to_string()),
    }
}

fn dmeta(mode: u32, uid: u32, gid: u32, label: Option<&str>) -> DirMetadata {
    DirMetadata {
        mode,
        uid,
        gid,
        selinux_label: label.map(|l| l.to_string()),
    }
}

fn paths(names: &[&str]) -> Vec<String> {
    names.iter().map(|n| n.to_string()).collect()
}

fn pairs(diffs: &[(String, String)]) -> Vec<(&str, &str)> {
    diffs.iter().map(|(a, b)| (a.as_str(), b.as_str())).collect()
}

#[test]
fn mode_change_is_the_only_difference() {
    let original = FileType::File(fmeta(644, 0, 0, 1, None));
    let new = FileType::File(fmeta(600, 0, 0, 1, None));
    let content = vec![b'x'];
    let (identical, diffs) = compare_files(&original, &new, &content, &content);
    assert!(!identical);
    assert_eq!(pairs(&diffs), vec![("mode", "644")]);
}

#[test]
fn directory_replaced_by_file_is_whole_entry_inequality() {
    let original = FileType::Dir(dmeta(755, 0, 0, None));
    let new = FileType::File(fmeta(644, 0, 0, 3, None));
    let (identical, diffs) = compare_files(&original, &new, &Vec::new(), &Vec::new());
    assert!(!identical);
    assert!(diffs.is_empty());
}

#[test]
fn deleted_path_appears_only_in_deleted_set() {
    let a = paths(&["old.txt"]);
    let b = paths(&[]);
    assert_eq!(symmetric_difference(&a, &b), paths(&["old.txt"]));
    assert_eq!(symmetric_difference(&b, &a), paths(&[]));
}

#[test]
fn symlink_target_change_has_no_itemized_fields() {
    let original = FileType::Symlink("target1".to_string());
    let new = FileType::Symlink("target2".to_string());
    let (identical, diffs) = compare_files(&original, &new, &Vec::new(), &Vec::new());
    assert!(!identical);
    assert!(diffs.is_empty());
}

#[test]
fn identical_symlinks_are_identical() {
    let original = FileType::Symlink("target1".to_string());
    let new = FileType::Symlink("target1".to_string());
    let (identical, diffs) = compare_files(&original, &new, &Vec::new(), &Vec::new());
    assert!(identical);
    assert!(diffs.is_empty());
}

#[test]
fn security_label_absent_on_both_sides_is_no_difference() {
    let a = fmeta(644, 1, 1, 10, None);
    let b = fmeta(644, 1, 1, 10, None);
    assert!(a.list_differences(&b).is_empty());
}

#[test]
fn security_label_equal_on_both_sides_is_no_difference() {
    let a = fmeta(644, 1, 1, 10, Some("system_u:object_r:etc_t:s0"));
    let b = fmeta(644, 1, 1, 10, Some("system_u:object_r:etc_t:s0"));
    assert!(a.list_differences(&b).is_empty());
}

#[test]
fn security_label_difference_reports_original_label() {
    let a = fmeta(644, 1, 1, 10, Some("system_u:object_r:etc_t:s0"));
    let b = fmeta(644, 1, 1, 10, Some("system_u:object_r:tmp_t:s0"));
    assert_eq!(
        pairs(&a.list_differences(&b)),
        vec![("selinux_label", "system_u:object_r:etc_t:s0")]
    );
}

#[test]
fn security_label_lost_reports_original_label() {
    let a = dmeta(755, 0, 0, Some("system_u:object_r:etc_t:s0"));
    let b = dmeta(755, 0, 0, None);
    assert_eq!(
        pairs(&a.list_differences(&b)),
        vec![("selinux_label", "system_u:object_r:etc_t:s0")]
    );
}

#[test]
fn security_label_gained_reports_empty_text() {
    let a = dmeta(755, 0, 0, None);
    let b = dmeta(755, 0, 0, Some("system_u:object_r:etc_t:s0"));
    assert_eq!(pairs(&a.list_differences(&b)), vec![("selinux_label", "")]);
}

#[test]
fn field_differences_keep_the_fixed_order() {
    let original = FileType::File(fmeta(644, 1000, 1000, 5, Some("label_a")));
    let new = FileType::File(fmeta(600, 1001, 1001, 6, Some("label_b")));
    let c1 = vec![1u8, 2, 3];
    let c2 = vec![4u8, 5, 6];
    let (identical, diffs) = compare_files(&original, &new, &c1, &c2);
    assert!(!identical);
    assert_eq!(
        pairs(&diffs),
        vec![
            ("mode", "644"),
            ("uid", "1000"),
            ("gid", "1000"),
            ("size", "5"),
            ("selinux_label", "label_a"),
            ("content", "different"),
        ]
    );
}

#[test]
fn directory_field_differences_keep_the_fixed_order() {
    let a = dmeta(755, 10, 20, Some("one"));
    let b = dmeta(700, 11, 21, Some("two"));
    assert_eq!(
        pairs(&a.list_differences(&b)),
        vec![("mode", "755"), ("uid", "10"), ("gid", "20"), ("selinux_label", "one")]
    );
}

#[test]
fn content_difference_is_reported_even_with_equal_metadata() {
    let original = FileType::File(fmeta(644, 0, 0, 1, None));
    let new = FileType::File(fmeta(644, 0, 0, 1, None));
    let c1 = vec![b'x'];
    let c2 = vec![b'y'];
    let (identical, diffs) = compare_files(&original, &new, &c1, &c2);
    assert!(!identical);
    assert_eq!(pairs(&diffs), vec![("content", "different")]);
}

#[test]
fn identical_files_report_nothing() {
    let original = FileType::File(fmeta(644, 0, 0, 1, Some("l")));
    let new = FileType::File(fmeta(644, 0, 0, 1, Some("l")));
    let content = vec![b'x'];
    let (identical, diffs) = compare_files(&original, &new, &content, &content);
    assert!(identical);
    assert!(diffs.is_empty());
}

#[test]
fn content_comparison_is_byte_exact() {
    assert!(content_identical(&vec![], &vec![]));
    assert!(content_identical(&vec![0, 255, 7], &vec![0, 255, 7]));
    assert!(!content_identical(&vec![0, 255, 7], &vec![0, 255, 8]));
    assert!(!content_identical(&vec![0, 255], &vec![0, 255, 7]));
}

#[test]
fn set_differences_and_intersection_are_disjoint() {
    let a = paths(&["a", "b", "c", "d"]);
    let b = paths(&["b", "d", "e"]);
    let deleted = symmetric_difference(&a, &b);
    let added = symmetric_difference(&b, &a);
    let common = intersection(&a, &b);
    assert_eq!(deleted, paths(&["a", "c"]));
    assert_eq!(added, paths(&["e"]));
    assert_eq!(common, paths(&["b", "d"]));
    for p in &deleted {
        assert!(!added.contains(p));
        assert!(!common.contains(p));
    }
    for p in &added {
        assert!(!common.contains(p));
    }
}

#[test]
fn comparing_a_tree_to_itself_yields_an_empty_report() {
    let a = paths(&["a", "sub/b", "sub/c"]);
    let compared = vec![
        ComparedPair {
            path: "a".to_string(),
            original: FileType::File(fmeta(644, 0, 0, 1, None)),
            new_entry: FileType::File(fmeta(644, 0, 0, 1, None)),
            original_content: vec![b'x'],
            new_content: vec![b'x'],
        },
        ComparedPair {
            path: "sub/b".to_string(),
            original: FileType::Dir(dmeta(755, 0, 0, Some("l"))),
            new_entry: FileType::Dir(dmeta(755, 0, 0, Some("l"))),
            original_content: Vec::new(),
            new_content: Vec::new(),
        },
    ];
    let report = diff_report(&a, &a, &compared);
    assert!(report.deleted_files.is_empty());
    assert!(report.added_files.is_empty());
    assert!(report.differences.is_empty());
}

#[test]
fn detection_does_not_depend_on_the_direction() {
    let file_a = FileType::File(fmeta(644, 0, 0, 1, None));
    let file_b = FileType::File(fmeta(600, 0, 0, 2, None));
    let c1 = vec![b'x'];
    let c2 = vec![b'y'];
    let (forward, _) = compare_files(&file_a, &file_b, &c1, &c2);
    let (backward, _) = compare_files(&file_b, &file_a, &c2, &c1);
    assert!(!forward);
    assert_eq!(forward, backward);
}

#[test]
fn reported_values_are_original_tree_relative() {
    let a = fmeta(644, 1, 1, 10, None);
    let b = fmeta(600, 1, 1, 10, None);
    assert_eq!(pairs(&a.list_differences(&b)), vec![("mode", "644")]);
    assert_eq!(pairs(&b.list_differences(&a)), vec![("mode", "600")]);
}

#[test]
fn report_keeps_input_order_and_omits_identical_paths() {
    let same = ComparedPair {
        path: "same".to_string(),
        original: FileType::Symlink("t".to_string()),
        new_entry: FileType::Symlink("t".to_string()),
        original_content: Vec::new(),
        new_content: Vec::new(),
    };
    let changed_mode = ComparedPair {
        path: "changed".to_string(),
        original: FileType::Dir(dmeta(755, 0, 0, None)),
        new_entry: FileType::Dir(dmeta(700, 0, 0, None)),
        original_content: Vec::new(),
        new_content: Vec::new(),
    };
    let replaced = ComparedPair {
        path: "replaced".to_string(),
        original: FileType::Dir(dmeta(755, 0, 0, None)),
        new_entry: FileType::File(fmeta(644, 0, 0, 0, None)),
        original_content: Vec::new(),
        new_content: Vec::new(),
    };
    let report = collect_differences(&vec![same, changed_mode, replaced]);
    assert_eq!(report.len(), 2);
    assert_eq!(report[0].name, "changed");
    assert_eq!(pairs(&report[0].differences), vec![("mode", "755")]);
    assert_eq!(report[1].name, "replaced");
    assert!(report[1].differences.is_empty());
}

#[test]
fn decimal_rendering_is_exact() {
    assert_eq!(u64_to_decimal(0), "0");
    assert_eq!(u64_to_decimal(7), "7");
    assert_eq!(u64_to_decimal(10), "10");
    assert_eq!(u64_to_decimal(1234567890123), "1234567890123");
    assert_eq!(u64_to_decimal(u64::MAX), "18446744073709551615");
    assert_eq!(u32_to_decimal(u32::MAX), "4294967295");
}

#[test]
fn absent_attribute_is_a_confirmed_absence() {
    match decode_security_label(None) {
        Ok(None) => {}
        _ => panic!("an absent attribute must decode as no label"),
    }
}

#[test]
fn valid_label_bytes_decode_to_their_text() {
    let bytes = b"system_u:object_r:etc_t:s0".to_vec();
    match decode_security_label(Some(bytes)) {
        Ok(Some(label)) => assert_eq!(label, "system_u:object_r:etc_t:s0"),
        _ => panic!("valid label bytes must decode"),
    }
}

#[test]
fn undecodable_label_bytes_are_an_error() {
    let bytes = vec![0xff, 0xfe, 0x00];
    match decode_security_label(Some(bytes)) {
        Err(SecurityLabelError::NotUnicode) => {}
        _ => panic!("undecodable label bytes must not be downgraded to an absence"),
    }
}
