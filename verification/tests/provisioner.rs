//! Storage provisioning: the tmpfs-first fallback chain and the mount
//! guard record.

use hybrid_mount::storage::{
    AutoMountExt4, BackendKind, ProvisionAction, StorageError, StorageProvisioner,
};

#[test]
fn tmpfs_with_attributes_wins() {
    let (mut p, first) = StorageProvisioner::start(false);
    assert_eq!(first, ProvisionAction::MountTmpfs);
    let a = p.step(true);
    assert_eq!(a, ProvisionAction::ProbeXattr);
    let a = p.step(true);
    assert_eq!(a, ProvisionAction::Report { result: Ok(BackendKind::Tmpfs) });
}

#[test]
fn tmpfs_without_attributes_is_detached_and_never_reported() {
    let (mut p, first) = StorageProvisioner::start(false);
    assert_eq!(first, ProvisionAction::MountTmpfs);
    let a = p.step(true);
    assert_eq!(a, ProvisionAction::ProbeXattr);
    // mounted, but the attribute round trip failed: detach it
    let a = p.step(false);
    assert_eq!(a, ProvisionAction::DetachTmpfs);
    let a = p.step(true);
    assert_eq!(a, ProvisionAction::CheckImage);
    let a = p.step(true);
    assert_eq!(a, ProvisionAction::MountImage);
    let a = p.step(true);
    assert_eq!(a, ProvisionAction::Report { result: Ok(BackendKind::Ext4Image) });
}

#[test]
fn failed_tmpfs_mount_falls_through_to_the_image() {
    let (mut p, _first) = StorageProvisioner::start(false);
    let a = p.step(false);
    assert_eq!(a, ProvisionAction::CheckImage);
}

#[test]
fn forced_ext4_skips_the_tmpfs_attempt() {
    let (mut p, first) = StorageProvisioner::start(true);
    assert_eq!(first, ProvisionAction::CheckImage);
    let a = p.step(true);
    assert_eq!(a, ProvisionAction::MountImage);
    let a = p.step(true);
    assert_eq!(a, ProvisionAction::Report { result: Ok(BackendKind::Ext4Image) });
}

#[test]
fn missing_image_is_fatal() {
    let (mut p, _first) = StorageProvisioner::start(true);
    let a = p.step(false);
    assert_eq!(a, ProvisionAction::Report { result: Err(StorageError::ImageMissing) });
}

#[test]
fn failed_image_mount_is_fatal() {
    let (mut p, _first) = StorageProvisioner::start(true);
    let _check = p.step(true);
    let a = p.step(false);
    assert_eq!(a, ProvisionAction::Report { result: Err(StorageError::ImageMountFailed) });
}

#[test]
fn mount_guard_remembers_target_and_flag() {
    let g = AutoMountExt4::try_new(&b"/mnt/work".to_vec(), true, true).unwrap();
    assert_eq!(g.target(), &b"/mnt/work".to_vec());
    assert!(g.auto_umount());
    assert!(matches!(
        AutoMountExt4::try_new(&b"/mnt/work".to_vec(), true, false),
        Err(StorageError::ImageMountFailed)
    ));
}
