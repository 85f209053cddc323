//! Storage provisioning: the two-tier backend choice for the working
//! storage that holds synced module content. A memory-backed filesystem is
//! tried first; if it cannot be mounted, or mounts without extended-
//! attribute support, the machine falls back to an ext4 image attached
//! over a loop device. The mounts and probes happen outside; their
//! outcomes drive this machine.

use vstd::prelude::*;

verus! {

/// The storage backend a run ends up on.
#[derive(Clone, Copy, PartialEq, Eq, Structural, Debug)]
pub enum BackendKind {
    /// A memory-backed filesystem with extended-attribute support.
    Tmpfs,
    /// The ext4 image, attached through a loop device.
    Ext4Image,
}

/// Unrecoverable provisioning failures.
#[derive(Clone, Copy, PartialEq, Eq, Structural, Debug)]
pub enum StorageError {
    /// The backing image file does not exist.
    ImageMissing,
    /// Attaching or mounting the backing image failed.
    ImageMountFailed,
}

/// Which outcome the provisioning machine is waiting for.
#[derive(Clone, Copy, PartialEq, Eq, Structural, Debug)]
pub enum ProvisionPhase {
    /// Waiting for the memory-backed mount.
    TryTmpfs,
    /// Waiting for the extended-attribute round trip.
    ProbeXattr,
    /// Waiting for the detach of the unusable memory-backed mount; its
    /// outcome does not matter.
    DetachTmpfs,
    /// Waiting to hear whether the backing image exists.
    CheckImage,
    /// Waiting for the loop attach and ext4 mount.
    MountImage,
    /// The run is decided.
    Finished,
}

/// What the caller is asked to do next.
#[derive(Clone, Copy, PartialEq, Eq, Debug)]
pub enum ProvisionAction {
    /// Mount a memory-backed filesystem at the working directory.
    MountTmpfs,
    /// Write and read back a test attribute on the working directory.
    ProbeXattr,
    /// Detach the memory-backed filesystem from the working directory.
    DetachTmpfs,
    /// Report whether the backing image file exists.
    CheckImage,
    /// Attach the image to a free loop device with write access and
    /// auto-clear, and mount it as ext4 with no-atime.
    MountImage,
    /// Provisioning is over, with exactly one backend mounted on success.
    Report { result: Result<BackendKind, StorageError> },
}

/// The first phase and action: forcing the image backend skips the
/// memory-backed attempt entirely.
pub open spec fn provision_start_view(force_ext4: bool) -> (ProvisionPhase, ProvisionAction) {
    if force_ext4 {
        (ProvisionPhase::CheckImage, ProvisionAction::CheckImage)
    } else {
        (ProvisionPhase::TryTmpfs, ProvisionAction::MountTmpfs)
    }
}

/// The machine's transition: a failed memory-backed mount falls through to
/// the image path; a mounted filesystem without attribute support is
/// detached first; a missing image is fatal; only an exact, successful
/// chain ends on `Tmpfs` or `Ext4Image`.
pub open spec fn provision_step_view(phase: ProvisionPhase, ok: bool) -> (
    ProvisionPhase,
    ProvisionAction,
) {
    match phase {
        ProvisionPhase::TryTmpfs => if ok {
            (ProvisionPhase::ProbeXattr, ProvisionAction::ProbeXattr)
        } else {
            (ProvisionPhase::CheckImage, ProvisionAction::CheckImage)
        },
        ProvisionPhase::ProbeXattr => if ok {
            (
                ProvisionPhase::Finished,
                ProvisionAction::Report {
                    result: Result::<BackendKind, StorageError>::Ok(BackendKind::Tmpfs),
                },
            )
        } else {
            (ProvisionPhase::DetachTmpfs, ProvisionAction::DetachTmpfs)
        },
        ProvisionPhase::DetachTmpfs => (ProvisionPhase::CheckImage, ProvisionAction::CheckImage),
        ProvisionPhase::CheckImage => if ok {
            (ProvisionPhase::MountImage, ProvisionAction::MountImage)
        } else {
            (
                ProvisionPhase::Finished,
                ProvisionAction::Report {
                    result: Result::<BackendKind, StorageError>::Err(StorageError::ImageMissing),
                },
            )
        },
        ProvisionPhase::MountImage => if ok {
            (
                ProvisionPhase::Finished,
                ProvisionAction::Report {
                    result: Result::<BackendKind, StorageError>::Ok(BackendKind::Ext4Image),
                },
            )
        } else {
            (
                ProvisionPhase::Finished,
                ProvisionAction::Report {
                    result: Result::<BackendKind, StorageError>::Err(
                        StorageError::ImageMountFailed,
                    ),
                },
            )
        },
        ProvisionPhase::Finished => (
            ProvisionPhase::Finished,
            ProvisionAction::Report {
                result: Result::<BackendKind, StorageError>::Err(StorageError::ImageMountFailed),
            },
        ),
    }
}

/// One provisioning run. The caller performs each returned action and
/// feeds its outcome back through [`StorageProvisioner::step`].
pub struct StorageProvisioner {
    pub phase: ProvisionPhase,
}

impl StorageProvisioner {
    /// Opens a run.
    pub fn start(force_ext4: bool) -> (r: (StorageProvisioner, ProvisionAction))
        ensures
            r.0.phase == provision_start_view(force_ext4).0,
            r.1 == provision_start_view(force_ext4).1,
    {
        if force_ext4 {
            (
                StorageProvisioner { phase: ProvisionPhase::CheckImage },
                ProvisionAction::CheckImage,
            )
        } else {
            (StorageProvisioner { phase: ProvisionPhase::TryTmpfs }, ProvisionAction::MountTmpfs)
        }
    }

    /// Feeds back the outcome of the awaited action and returns the next
    /// one. The transition is exactly [`provision_step_view`].
    pub fn step(&mut self, ok: bool) -> (a: ProvisionAction)
        requires
            old(self).phase != ProvisionPhase::Finished,
        ensures
            final(self).phase == provision_step_view(old(self).phase, ok).0,
            a == provision_step_view(old(self).phase, ok).1,
    {
        let (phase, action) = match (self.phase, ok) {
            (ProvisionPhase::TryTmpfs, true) => (
                ProvisionPhase::ProbeXattr,
                ProvisionAction::ProbeXattr,
            ),
            (ProvisionPhase::TryTmpfs, false) => (
                ProvisionPhase::CheckImage,
                ProvisionAction::CheckImage,
            ),
            (ProvisionPhase::ProbeXattr, true) => (
                ProvisionPhase::Finished,
                ProvisionAction::Report { result: Ok(BackendKind::Tmpfs) },
            ),
            (ProvisionPhase::ProbeXattr, false) => (
                ProvisionPhase::DetachTmpfs,
                ProvisionAction::DetachTmpfs,
            ),
            (ProvisionPhase::DetachTmpfs, _) => (
                ProvisionPhase::CheckImage,
                ProvisionAction::CheckImage,
            ),
            (ProvisionPhase::CheckImage, true) => (
                ProvisionPhase::MountImage,
                ProvisionAction::MountImage,
            ),
            (ProvisionPhase::CheckImage, false) => (
                ProvisionPhase::Finished,
                ProvisionAction::Report { result: Err(StorageError::ImageMissing) },
            ),
            (ProvisionPhase::MountImage, true) => (
                ProvisionPhase::Finished,
                ProvisionAction::Report { result: Ok(BackendKind::Ext4Image) },
            ),
            (ProvisionPhase::MountImage, false) => (
                ProvisionPhase::Finished,
                ProvisionAction::Report { result: Err(StorageError::ImageMountFailed) },
            ),
            (ProvisionPhase::Finished, _) => (
                ProvisionPhase::Finished,
                ProvisionAction::Report { result: Err(StorageError::ImageMountFailed) },
            ),
        };
        self.phase = phase;
        action
    }
}

/// The machine has given up on the memory-backed filesystem for good.
pub open spec fn tmpfs_rejected(phase: ProvisionPhase) -> bool {
    phase == ProvisionPhase::DetachTmpfs || phase == ProvisionPhase::CheckImage || phase
        == ProvisionPhase::MountImage || phase == ProvisionPhase::Finished
}

/// When the memory-backed filesystem mounts but lacks extended-attribute
/// support, the machine detaches it at once, and no later step can report
/// `Tmpfs`: every successful outcome from then on is `Ext4Image`.
pub proof fn lemma_no_xattr_never_tmpfs(phase: ProvisionPhase, ok: bool)
    ensures
        provision_step_view(ProvisionPhase::ProbeXattr, false) == (
            ProvisionPhase::DetachTmpfs,
            ProvisionAction::DetachTmpfs,
        ),
        tmpfs_rejected(phase) ==> tmpfs_rejected(provision_step_view(phase, ok).0),
        tmpfs_rejected(phase) ==> (provision_step_view(phase, ok).1 matches
            ProvisionAction::Report { result: Result::Ok(k) } ==> k == BackendKind::Ext4Image),
{
}

/// A guard over the mounted ext4 image: remembers the mount target and
/// whether it should be detached again when the guard is dropped.
pub struct AutoMountExt4 {
    target: Vec<u8>,
    auto_umount: bool,
}

impl AutoMountExt4 {
    /// The remembered mount target.
    pub closed spec fn target_spec(&self) -> Seq<u8> {
        self.target@
    }

    /// Whether the guard detaches the target when dropped.
    pub closed spec fn auto_umount_spec(&self) -> bool {
        self.auto_umount
    }

    /// Records a finished ext4 mount of `target`; `mounted` is the mount's
    /// outcome, and no guard is produced for a failed mount.
    pub fn try_new(target: &Vec<u8>, auto_umount: bool, mounted: bool) -> (r: Result<
        AutoMountExt4,
        StorageError,
    >)
        ensures
            mounted ==> (r matches Ok(g) && g.target_spec() == target@ && g.auto_umount_spec()
                == auto_umount),
            !mounted ==> r == Err::<AutoMountExt4, StorageError>(StorageError::ImageMountFailed),
    {
        if mounted {
            Ok(AutoMountExt4 { target: crate::bytes::copy_bytes(target), auto_umount })
        } else {
            Err(StorageError::ImageMountFailed)
        }
    }

    /// The path to detach.
    pub fn target(&self) -> (r: &Vec<u8>)
        ensures
            r@ == self.target_spec(),
    {
        &self.target
    }

    /// Should the caller detach the target when the guard goes away?
    pub fn auto_umount(&self) -> (r: bool)
        ensures
            r == self.auto_umount_spec(),
    {
        self.auto_umount
    }
}

} // verus!
