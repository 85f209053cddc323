//! Module classification: eligibility, mode resolution, per-partition
//! layer lists, and the magic set.

use hybrid_mount::classify::{
    builtin_partitions, classify, magic_fallback, resolve_mode, scan_enabled_module_ids,
    sync_active_modules, ModeOverride, ModuleScan, MountMode,
};

fn module(id: &str, subdirs: &[&str]) -> ModuleScan {
    ModuleScan {
        id: id.as_bytes().to_vec(),
        content_path: format!("/storage/{}", id).into_bytes(),
        is_dir: true,
        disable: false,
        remove: false,
        skip_mount: false,
        subdirs: subdirs.iter().map(|s| s.as_bytes().to_vec()).collect(),
    }
}

fn plan_for<'a>(
    plans: &'a [hybrid_mount::classify::PartitionPlan],
    name: &str,
) -> &'a hybrid_mount::classify::PartitionPlan {
    plans.iter().find(|p| p.partition == name.as_bytes().to_vec()).unwrap()
}

#[test]
fn builtin_partition_list_is_fixed() {
    let parts = builtin_partitions();
    let names: Vec<&[u8]> = parts.iter().map(|p| p.as_slice()).collect();
    assert_eq!(
        names,
        vec![
            b"system".as_slice(),
            b"vendor".as_slice(),
            b"product".as_slice(),
            b"system_ext".as_slice(),
            b"odm".as_slice(),
            b"oem".as_slice(),
        ]
    );
}

#[test]
fn modules_land_in_the_partitions_they_carry() {
    // module A carries /vendor, module B only /system; both default to auto
    let modules = vec![module("a", &["vendor"]), module("b", &["system"])];
    let (plans, magic) = classify(&modules, &vec![], &vec![]);
    assert_eq!(plan_for(&plans, "vendor").layers, vec![b"/storage/a".to_vec()]);
    assert_eq!(plan_for(&plans, "system").layers, vec![b"/storage/b".to_vec()]);
    assert!(plan_for(&plans, "product").layers.is_empty());
    assert!(magic.is_empty());
}

#[test]
fn layer_order_is_discovery_order() {
    let modules = vec![
        module("m1", &["system"]),
        module("m2", &["system", "vendor"]),
        module("m3", &["system"]),
    ];
    let (plans, _) = classify(&modules, &vec![], &vec![]);
    assert_eq!(
        plan_for(&plans, "system").layers,
        vec![b"/storage/m1".to_vec(), b"/storage/m2".to_vec(), b"/storage/m3".to_vec()]
    );
    // a second run over the identical listing gives the identical plan
    let (plans2, _) = classify(&modules, &vec![], &vec![]);
    assert_eq!(plan_for(&plans2, "system").layers, plan_for(&plans, "system").layers);
}

#[test]
fn magic_modules_never_appear_in_any_layer_list() {
    let modules = vec![module("a", &["system"]), module("m", &["system", "vendor"])];
    let overrides = vec![ModeOverride { id: b"m".to_vec(), mode: MountMode::Magic }];
    let (plans, magic) = classify(&modules, &overrides, &vec![]);
    assert_eq!(magic, vec![b"/storage/m".to_vec()]);
    for plan in &plans {
        assert!(!plan.layers.contains(&b"/storage/m".to_vec()));
    }
    assert_eq!(plan_for(&plans, "system").layers, vec![b"/storage/a".to_vec()]);
}

#[test]
fn marker_files_and_reserved_names_disqualify() {
    let mut disabled = module("d", &["system"]);
    disabled.disable = true;
    let mut removed = module("r", &["system"]);
    removed.remove = true;
    let mut skipped = module("s", &["system"]);
    skipped.skip_mount = true;
    let mut file_entry = module("f", &["system"]);
    file_entry.is_dir = false;
    let reserved = module("meta-hybrid", &["system"]);
    let housekeeping = module("lost+found", &["system"]);
    let empty = module("e", &["bin"]);
    let modules = vec![disabled, removed, skipped, file_entry, reserved, housekeeping, empty];
    let (plans, magic) = classify(&modules, &vec![], &vec![]);
    for plan in &plans {
        assert!(plan.layers.is_empty());
    }
    assert!(magic.is_empty());
}

#[test]
fn extra_partitions_are_recognized_after_the_builtins() {
    let modules = vec![module("x", &["mycustom"])];
    let extra = vec![b"mycustom".to_vec()];
    let (plans, _) = classify(&modules, &vec![], &extra);
    assert_eq!(plans.len(), 7);
    assert_eq!(plans[6].partition, b"mycustom".to_vec());
    assert_eq!(plan_for(&plans, "mycustom").layers, vec![b"/storage/x".to_vec()]);
}

#[test]
fn mode_resolution_defaults_to_auto() {
    let overrides = vec![ModeOverride { id: b"m".to_vec(), mode: MountMode::Magic }];
    assert_eq!(resolve_mode(&overrides, &b"m".to_vec()), MountMode::Magic);
    assert_eq!(resolve_mode(&overrides, &b"other".to_vec()), MountMode::Auto);
    assert_eq!(resolve_mode(&vec![], &b"m".to_vec()), MountMode::Auto);
}

#[test]
fn enabled_ids_skip_markers_and_reserved_names() {
    let mut disabled = module("d", &["system"]);
    disabled.disable = true;
    let entries = vec![module("a", &[]), disabled, module("lost+found", &[]), module("b", &["x"])];
    let ids = scan_enabled_module_ids(&entries);
    assert_eq!(ids, vec![b"a".to_vec(), b"b".to_vec()]);
}

#[test]
fn sync_wants_only_modules_with_builtin_content() {
    let entries = vec![
        module("plain", &[]),
        module("sys", &["system"]),
        module("custom", &["mycustom"]),
        module("odm", &["odm"]),
    ];
    let ids = sync_active_modules(&entries);
    assert_eq!(ids, vec![b"sys".to_vec(), b"odm".to_vec()]);
}

#[test]
fn magic_fallback_deduplicates_and_keeps_order() {
    let mut magic = vec![b"/storage/m".to_vec()];
    let failed = vec![b"/storage/a".to_vec(), b"/storage/m".to_vec(), b"/storage/b".to_vec()];
    magic_fallback(&mut magic, &failed);
    assert_eq!(
        magic,
        vec![b"/storage/m".to_vec(), b"/storage/a".to_vec(), b"/storage/b".to_vec()]
    );
}
