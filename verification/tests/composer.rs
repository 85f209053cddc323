//! Overlay composition: the frozen snapshot, the child plans, the option
//! strings, and the mount/fallback/rollback state machine.

use hybrid_mount::classify::magic_fallback;
use hybrid_mount::compose::{
    build_snapshot, check_strictly_inside, overlay_lowerdir_config, overlay_mount_data,
    plan_child, ChildInfo, ComposeAction, ComposeError, ComposeSession, LowerState, PlanKind,
};

fn child(mount_point: &str, stock_is_dir: bool, lowers: &[LowerState]) -> ChildInfo {
    ChildInfo {
        mount_point: mount_point.as_bytes().to_vec(),
        stock_is_dir,
        lowers: lowers.to_vec(),
    }
}

#[test]
fn snapshot_keeps_only_strict_descendants_sorted_and_unique() {
    let mounts = vec![
        b"/system/fonts".to_vec(),
        b"/vendor".to_vec(),
        b"/system".to_vec(),
        b"/system/app".to_vec(),
        b"/system/fonts".to_vec(),
        b"/system_ext/etc".to_vec(),
    ];
    let snap = build_snapshot(&mounts, &b"/system".to_vec());
    assert_eq!(snap, vec![b"/system/app".to_vec(), b"/system/fonts".to_vec()]);
}

#[test]
fn sibling_partitions_are_outside() {
    // "/system_ext" shares the prefix characters but is no descendant
    assert!(!check_strictly_inside(&b"/system_ext".to_vec(), &b"/system".to_vec()));
    assert!(check_strictly_inside(&b"/system/etc".to_vec(), &b"/system".to_vec()));
    assert!(!check_strictly_inside(&b"/system".to_vec(), &b"/system".to_vec()));
    assert!(!check_strictly_inside(&b"/vendor".to_vec(), &b"/system".to_vec()));
}

#[test]
fn vanished_stock_directory_is_skipped() {
    let c = child("/system/app", false, &[LowerState::Dir]);
    assert_eq!(plan_child(&c), PlanKind::Skip);
}

#[test]
fn type_conflict_is_skipped_entirely() {
    let c = child("/system/app", true, &[LowerState::Dir, LowerState::NonDir]);
    assert_eq!(plan_child(&c), PlanKind::Skip);
}

#[test]
fn untouched_mount_point_is_rebound_to_stock() {
    let c = child("/system/app", true, &[LowerState::Missing, LowerState::Missing]);
    assert_eq!(plan_child(&c), PlanKind::BindStock);
}

#[test]
fn contributing_lowers_build_a_child_overlay() {
    let c = child("/system/app", true, &[LowerState::Missing, LowerState::Dir]);
    assert_eq!(plan_child(&c), PlanKind::Overlay);
}

#[test]
fn lowerdir_config_joins_with_colons() {
    let lowers = vec![b"/m1/system".to_vec(), b"/m2/system".to_vec()];
    let config = overlay_lowerdir_config(&lowers, &b"/system".to_vec());
    assert_eq!(config, b"/m1/system:/m2/system:/system".to_vec());
}

#[test]
fn mount_data_includes_upper_and_work_only_together() {
    let config = b"/a:/b".to_vec();
    assert_eq!(overlay_mount_data(&config, None, None), b"lowerdir=/a:/b".to_vec());
    let upper = b"/up".to_vec();
    let work = b"/wk".to_vec();
    assert_eq!(overlay_mount_data(&config, Some(&upper), None), b"lowerdir=/a:/b".to_vec());
    assert_eq!(
        overlay_mount_data(&config, Some(&upper), Some(&work)),
        b"lowerdir=/a:/b,upperdir=/up,workdir=/wk".to_vec()
    );
}

#[test]
fn successful_run_mounts_root_then_children() {
    let children = vec![
        child("/system/app", true, &[LowerState::Dir]),
        child("/system/etc", true, &[LowerState::Missing]),
        child("/system/gone", false, &[LowerState::Dir]),
    ];
    let (mut s, first) = ComposeSession::start(
        b"/system".to_vec(),
        vec![b"/m1/system".to_vec()],
        children,
    );
    assert_eq!(
        first,
        ComposeAction::MountOverlay {
            dest: b"/system".to_vec(),
            lowers: vec![b"/m1/system".to_vec()],
            lowest: b"/system".to_vec(),
        }
    );
    // root overlay mounted: the first child gets its own overlay, lowers
    // joined with the relative path over the frozen stock tree
    let a = s.step(true);
    assert_eq!(
        a,
        ComposeAction::MountOverlay {
            dest: b"/system/app".to_vec(),
            lowers: vec![b"/m1/system/app".to_vec()],
            lowest: b"./app".to_vec(),
        }
    );
    // untouched child: re-bound to stock; the vanished one is skipped
    let a = s.step(true);
    assert_eq!(
        a,
        ComposeAction::BindStock { from: b"./etc".to_vec(), to: b"/system/etc".to_vec() }
    );
    let a = s.step(true);
    assert_eq!(a, ComposeAction::Done { result: Ok(()) });
}

#[test]
fn root_failure_leaves_partition_untouched() {
    let (mut s, _first) = ComposeSession::start(
        b"/system".to_vec(),
        vec![b"/m1/system".to_vec()],
        vec![child("/system/app", true, &[LowerState::Dir])],
    );
    let a = s.step(false);
    assert_eq!(a, ComposeAction::Done { result: Err(ComposeError::RootMountFailed) });
}

#[test]
fn child_overlay_failure_falls_back_to_bind() {
    let (mut s, _first) = ComposeSession::start(
        b"/system".to_vec(),
        vec![b"/m1/system".to_vec()],
        vec![
            child("/system/app", true, &[LowerState::Dir]),
            child("/system/etc", true, &[LowerState::Missing]),
        ],
    );
    let _child_overlay = s.step(true);
    // the child overlay fails: bind the stock directory instead
    let a = s.step(false);
    assert_eq!(
        a,
        ComposeAction::BindStock { from: b"./app".to_vec(), to: b"/system/app".to_vec() }
    );
    // the bind works: the run goes on, non-fatally
    let a = s.step(true);
    assert_eq!(
        a,
        ComposeAction::BindStock { from: b"./etc".to_vec(), to: b"/system/etc".to_vec() }
    );
    let a = s.step(true);
    assert_eq!(a, ComposeAction::Done { result: Ok(()) });
}

#[test]
fn failed_fallback_unmounts_the_root_overlay() {
    let (mut s, _first) = ComposeSession::start(
        b"/system".to_vec(),
        vec![b"/m1/system".to_vec()],
        vec![child("/system/app", true, &[LowerState::Dir])],
    );
    let _child_overlay = s.step(true);
    let _bind = s.step(false);
    // the bind fallback fails too: roll the partition back
    let a = s.step(false);
    assert_eq!(a, ComposeAction::UnmountRoot { dest: b"/system".to_vec() });
    // the unmount works: the partition is reported failed
    let a = s.step(true);
    assert_eq!(
        a,
        ComposeAction::Done { result: Err(ComposeError::ChildMountFailed { index: 0 }) }
    );
}

#[test]
fn failed_rollback_is_reported_as_such() {
    let (mut s, _first) = ComposeSession::start(
        b"/system".to_vec(),
        vec![b"/m1/system".to_vec()],
        vec![child("/system/app", true, &[LowerState::Dir])],
    );
    let _child_overlay = s.step(true);
    let _bind = s.step(false);
    let _unmount = s.step(false);
    let a = s.step(false);
    assert_eq!(
        a,
        ComposeAction::Done { result: Err(ComposeError::RollbackFailed { index: 0 }) }
    );
}

#[test]
fn primary_bind_failure_escalates_without_second_fallback() {
    let (mut s, _first) = ComposeSession::start(
        b"/system".to_vec(),
        vec![b"/m1/system".to_vec()],
        vec![child("/system/etc", true, &[LowerState::Missing])],
    );
    let a = s.step(true);
    assert_eq!(
        a,
        ComposeAction::BindStock { from: b"./etc".to_vec(), to: b"/system/etc".to_vec() }
    );
    let a = s.step(false);
    assert_eq!(a, ComposeAction::UnmountRoot { dest: b"/system".to_vec() });
}

#[test]
fn failed_partition_queues_its_modules_for_magic_mount() {
    let (mut s, _first) = ComposeSession::start(
        b"/vendor".to_vec(),
        vec![b"/storage/a/vendor".to_vec(), b"/storage/b/vendor".to_vec()],
        vec![child("/vendor/etc", true, &[LowerState::Dir, LowerState::Dir])],
    );
    let _child_overlay = s.step(true);
    let _bind = s.step(false);
    let _unmount = s.step(false);
    let outcome = s.step(true);
    assert_eq!(
        outcome,
        ComposeAction::Done { result: Err(ComposeError::ChildMountFailed { index: 0 }) }
    );
    // the partition failed as a whole: every one of its modules falls
    // back to the magic-mount engine
    let mut magic: Vec<Vec<u8>> = Vec::new();
    magic_fallback(&mut magic, &vec![b"/storage/a".to_vec(), b"/storage/b".to_vec()]);
    assert_eq!(magic, vec![b"/storage/a".to_vec(), b"/storage/b".to_vec()]);
}
