//! The directory-injection driver: version protocol, opcodes, and the
//! rule batches planned for a walked module tree.

use hybrid_mount::hymo::{
    ioc_add_rule, ioc_clear_all, ioc_del_rule, ioc_get_version, ioc_hide_rule, ioc_inject_rule,
    rule_wire, EntryKind, HymoFs, HymoFsStatus, HymoRule, RuleApplyError, ScanEntry,
    EXPECTED_PROTOCOL_VERSION, FILE_TYPE_DIR, FILE_TYPE_LNK, FILE_TYPE_REG,
};

#[test]
fn opcodes_pack_the_argument_record_size() {
    // the record holds two pointers and a padded 32-bit type code: 24 bytes
    assert_eq!(ioc_add_rule(), 0x4018_E001);
    assert_eq!(ioc_del_rule(), 0x4018_E002);
    assert_eq!(ioc_hide_rule(), 0x4018_E003);
    assert_eq!(ioc_inject_rule(), 0x4018_E004);
    assert_eq!(ioc_clear_all(), 0x0000_E005);
    assert_eq!(ioc_get_version(), 0x8004_E006);
}

#[test]
fn get_version_classifies_the_ioctl_outcome() {
    assert_eq!(HymoFs::get_version(true, 0, 4), Some(4));
    assert_eq!(HymoFs::get_version(true, -1, 4), None);
    assert_eq!(HymoFs::get_version(false, 0, 4), None);
}

#[test]
fn version_below_expected_is_kernel_too_old() {
    assert_eq!(
        HymoFs::check_status(Some(EXPECTED_PROTOCOL_VERSION - 1)),
        HymoFsStatus::KernelTooOld
    );
}

#[test]
fn version_above_expected_is_module_too_old() {
    assert_eq!(
        HymoFs::check_status(Some(EXPECTED_PROTOCOL_VERSION + 1)),
        HymoFsStatus::ModuleTooOld
    );
}

#[test]
fn open_failure_is_not_present() {
    assert_eq!(HymoFs::check_status(None), HymoFsStatus::NotPresent);
}

#[test]
fn only_the_exact_version_is_available() {
    assert_eq!(HymoFs::check_status(Some(EXPECTED_PROTOCOL_VERSION)), HymoFsStatus::Available);
    assert!(HymoFs::is_available(Some(EXPECTED_PROTOCOL_VERSION)));
    assert!(!HymoFs::is_available(Some(EXPECTED_PROTOCOL_VERSION + 1)));
    assert!(!HymoFs::is_available(None));
}

#[test]
fn clear_reports_the_ioctl_result() {
    assert_eq!(HymoFs::clear(0), Ok(()));
    assert_eq!(HymoFs::clear(-1), Err(RuleApplyError::IoctlFailed));
}

#[test]
fn hide_path_is_a_single_rule_batch() {
    let rules = HymoFs::hide_path(&b"/system/priv-app/x".to_vec());
    assert_eq!(rules, vec![HymoRule::Hide { path: b"/system/priv-app/x".to_vec() }]);
}

#[test]
fn inject_directory_plans_the_walked_batch() {
    let base = b"/system/app/Stealth".to_vec();
    let module = b"/data/mod/content".to_vec();
    let entries = vec![
        ScanEntry { rel_path: b"lib".to_vec(), kind: EntryKind::Dir },
        ScanEntry { rel_path: b"lib/a.so".to_vec(), kind: EntryKind::Regular },
        ScanEntry { rel_path: b"lib/l".to_vec(), kind: EntryKind::Symlink },
        ScanEntry { rel_path: b"mask".to_vec(), kind: EntryKind::CharDev { rdev: 0 } },
        ScanEntry { rel_path: b"tty".to_vec(), kind: EntryKind::CharDev { rdev: 0x0503 } },
    ];
    let rules = HymoFs::inject_directory(&base, &module, &entries);
    assert_eq!(
        rules,
        vec![
            HymoRule::Inject { dir: b"/system/app/Stealth".to_vec() },
            HymoRule::Inject { dir: b"/system/app/Stealth/lib".to_vec() },
            HymoRule::Redirect {
                src: b"/system/app/Stealth/lib".to_vec(),
                target: b"/data/mod/content/lib".to_vec(),
                file_type: FILE_TYPE_DIR,
            },
            HymoRule::Redirect {
                src: b"/system/app/Stealth/lib/a.so".to_vec(),
                target: b"/data/mod/content/lib/a.so".to_vec(),
                file_type: FILE_TYPE_REG,
            },
            HymoRule::Redirect {
                src: b"/system/app/Stealth/lib/l".to_vec(),
                target: b"/data/mod/content/lib/l".to_vec(),
                file_type: FILE_TYPE_LNK,
            },
            // a zero device number marks a stub that masks a real device
            HymoRule::Hide { path: b"/system/app/Stealth/mask".to_vec() },
            // a real character device contributes no rule
        ]
    );
}

#[test]
fn empty_walk_still_registers_the_base() {
    let rules = HymoFs::inject_directory(&b"/t".to_vec(), &b"/m".to_vec(), &vec![]);
    assert_eq!(rules, vec![HymoRule::Inject { dir: b"/t".to_vec() }]);
}

#[test]
fn rule_wire_picks_opcode_and_strings() {
    let (op, s, t, ty) = rule_wire(&HymoRule::Redirect {
        src: b"/a".to_vec(),
        target: b"/b".to_vec(),
        file_type: FILE_TYPE_REG,
    });
    assert_eq!(op, ioc_add_rule());
    assert_eq!(s, b"/a".to_vec());
    assert_eq!(t, Some(b"/b".to_vec()));
    assert_eq!(ty, FILE_TYPE_REG);

    let (op, s, t, ty) = rule_wire(&HymoRule::Hide { path: b"/h".to_vec() });
    assert_eq!(op, ioc_hide_rule());
    assert_eq!(s, b"/h".to_vec());
    assert_eq!(t, None);
    assert_eq!(ty, 0);

    let (op, s, t, ty) = rule_wire(&HymoRule::Inject { dir: b"/d".to_vec() });
    assert_eq!(op, ioc_inject_rule());
    assert_eq!(s, b"/d".to_vec());
    assert_eq!(t, None);
    assert_eq!(ty, 0);
}
