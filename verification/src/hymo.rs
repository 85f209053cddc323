//! The pointer-record protocol of the directory-injection driver.
//!
//! Each request passes a `(src, target, type)` argument record; the opcodes
//! are packed ioctl codes over that record's size. Before any other verb is
//! used, the driver's protocol version must be probed and compared against
//! [`EXPECTED_PROTOCOL_VERSION`]; the three distinct mismatch outcomes are
//! kept apart rather than collapsed into one.

use vstd::prelude::*;

use crate::ioc::{ioc, ioc_code, IOC_NONE, IOC_READ, IOC_WRITE};

verus! {

/// The type byte that identifies this driver's requests.
pub const HYMO_IOC_MAGIC: u32 = 0xE0;

/// The protocol version this crate speaks.
pub const EXPECTED_PROTOCOL_VERSION: i32 = 4;

/// Byte size of the driver's argument record: two pointers and a 32-bit
/// type code, padded to pointer alignment on a 64-bit kernel.
pub const HYMO_ARG_SIZE: u32 = 8 + 8 + 4 + 4;

/// The `/` path separator.
pub const SLASH: u8 = 47;

/// Type code the driver uses for a directory.
pub const FILE_TYPE_DIR: i32 = 4;

/// Type code the driver uses for a regular file.
pub const FILE_TYPE_REG: i32 = 8;

/// Type code the driver uses for a symbolic link.
pub const FILE_TYPE_LNK: i32 = 10;

/// Opcode that installs a redirect rule.
pub fn ioc_add_rule() -> (r: u32)
    ensures
        r == ioc_code(IOC_WRITE, HYMO_IOC_MAGIC, 1, HYMO_ARG_SIZE),
{
    ioc(IOC_WRITE, HYMO_IOC_MAGIC, 1, HYMO_ARG_SIZE)
}

/// Opcode that deletes a rule.
pub fn ioc_del_rule() -> (r: u32)
    ensures
        r == ioc_code(IOC_WRITE, HYMO_IOC_MAGIC, 2, HYMO_ARG_SIZE),
{
    ioc(IOC_WRITE, HYMO_IOC_MAGIC, 2, HYMO_ARG_SIZE)
}

/// Opcode that installs a hide rule.
pub fn ioc_hide_rule() -> (r: u32)
    ensures
        r == ioc_code(IOC_WRITE, HYMO_IOC_MAGIC, 3, HYMO_ARG_SIZE),
{
    ioc(IOC_WRITE, HYMO_IOC_MAGIC, 3, HYMO_ARG_SIZE)
}

/// Opcode that registers a virtual directory.
pub fn ioc_inject_rule() -> (r: u32)
    ensures
        r == ioc_code(IOC_WRITE, HYMO_IOC_MAGIC, 4, HYMO_ARG_SIZE),
{
    ioc(IOC_WRITE, HYMO_IOC_MAGIC, 4, HYMO_ARG_SIZE)
}

/// Opcode that clears the whole rule table.
pub fn ioc_clear_all() -> (r: u32)
    ensures
        r == ioc_code(IOC_NONE, HYMO_IOC_MAGIC, 5, 0),
{
    ioc(IOC_NONE, HYMO_IOC_MAGIC, 5, 0)
}

/// Opcode that reads the driver's protocol version (a 32-bit integer).
pub fn ioc_get_version() -> (r: u32)
    ensures
        r == ioc_code(IOC_READ, HYMO_IOC_MAGIC, 6, 4),
{
    ioc(IOC_READ, HYMO_IOC_MAGIC, 6, 4)
}

/// One rule handed to the driver.
#[derive(Debug, PartialEq)]
pub enum HymoRule {
    Redirect { src: Vec<u8>, target: Vec<u8>, file_type: i32 },
    Hide { path: Vec<u8> },
    Inject { dir: Vec<u8> },
}

/// The mathematical shape of a rule: byte strings instead of buffers.
pub enum RuleView {
    Redirect { src: Seq<u8>, target: Seq<u8>, file_type: int },
    Hide { path: Seq<u8> },
    Inject { dir: Seq<u8> },
}

impl View for HymoRule {
    type V = RuleView;

    open spec fn view(&self) -> RuleView {
        match self {
            HymoRule::Redirect { src, target, file_type } => RuleView::Redirect {
                src: src@,
                target: target@,
                file_type: *file_type as int,
            },
            HymoRule::Hide { path } => RuleView::Hide { path: path@ },
            HymoRule::Inject { dir } => RuleView::Inject { dir: dir@ },
        }
    }
}

/// The views of a rule list.
pub open spec fn rule_views(s: Seq<HymoRule>) -> Seq<RuleView> {
    Seq::new(s.len(), |i: int| s[i]@)
}

/// The outcome of probing the driver.
#[derive(Clone, Copy, PartialEq, Eq, Structural, Debug)]
pub enum HymoFsStatus {
    /// The driver is present and speaks exactly the expected version.
    Available,
    /// The device is missing, or opening or probing it failed.
    NotPresent,
    /// The driver speaks an older version than this crate.
    KernelTooOld,
    /// The driver speaks a newer version than this crate.
    ModuleTooOld,
}

/// A failed rule ioctl, reported per rule and never aborting a batch.
#[derive(Clone, Copy, PartialEq, Eq, Structural, Debug)]
pub enum RuleApplyError {
    IoctlFailed,
}

/// The status a version probe classifies to: `None` stands for a device
/// that could not be opened or probed.
pub open spec fn status_of(version: Option<i32>) -> HymoFsStatus {
    match version {
        Option::None => HymoFsStatus::NotPresent,
        Option::Some(v) => if v == EXPECTED_PROTOCOL_VERSION {
            HymoFsStatus::Available
        } else if v < EXPECTED_PROTOCOL_VERSION {
            HymoFsStatus::KernelTooOld
        } else {
            HymoFsStatus::ModuleTooOld
        },
    }
}

/// What one directory entry, observed under the module tree, asks of the
/// driver.
#[derive(Clone, Copy, PartialEq, Eq, Structural, Debug)]
pub enum EntryKind {
    /// A directory.
    Dir,
    /// A character device with the given device number; a zero number marks
    /// a stub shipped to mask a real device.
    CharDev { rdev: u64 },
    /// A symbolic link.
    Symlink,
    /// Any other entry (a regular file, fifo or socket).
    Regular,
}

/// One entry of a pre-order walk of a module directory, parent before
/// children, with its path relative to the walked root.
#[derive(Debug)]
pub struct ScanEntry {
    pub rel_path: Vec<u8>,
    pub kind: EntryKind,
}

/// `base`, a slash, and `rel`.
pub open spec fn slash_joined(base: Seq<u8>, rel: Seq<u8>) -> Seq<u8> {
    base + seq![SLASH] + rel
}

/// The rules one entry contributes: a directory is registered as a virtual
/// namespace and redirected to its real counterpart; a zero-numbered
/// character device is hidden; a symlink or regular file is redirected with
/// its distinguishing type code; a character device with a real number
/// contributes nothing.
pub open spec fn entry_rules(base: Seq<u8>, module_dir: Seq<u8>, e: ScanEntry) -> Seq<RuleView> {
    let tp = slash_joined(base, e.rel_path@);
    let tgt = slash_joined(module_dir, e.rel_path@);
    match e.kind {
        EntryKind::Dir => seq![
            RuleView::Inject { dir: tp },
            RuleView::Redirect { src: tp, target: tgt, file_type: FILE_TYPE_DIR as int },
        ],
        EntryKind::CharDev { rdev } => if rdev == 0 {
            seq![RuleView::Hide { path: tp }]
        } else {
            Seq::empty()
        },
        EntryKind::Symlink => seq![
            RuleView::Redirect { src: tp, target: tgt, file_type: FILE_TYPE_LNK as int },
        ],
        EntryKind::Regular => seq![
            RuleView::Redirect { src: tp, target: tgt, file_type: FILE_TYPE_REG as int },
        ],
    }
}

/// The whole batch for one injection call: the base directory itself is
/// registered first, then each walked entry contributes in walk order.
pub open spec fn inject_rules(base: Seq<u8>, module_dir: Seq<u8>, entries: Seq<ScanEntry>) -> Seq<
    RuleView,
>
    decreases entries.len(),
{
    if entries.len() == 0 {
        seq![RuleView::Inject { dir: base }]
    } else {
        inject_rules(base, module_dir, entries.drop_last()) + entry_rules(
            base,
            module_dir,
            entries.last(),
        )
    }
}

/// Joins a base path and a relative path with a slash.
pub fn join_slash(base: &Vec<u8>, rel: &Vec<u8>) -> (r: Vec<u8>)
    ensures
        r@ == slash_joined(base@, rel@),
{
    let mut r = crate::bytes::copy_bytes(base);
    r.push(SLASH);
    crate::bytes::append_bytes(&mut r, rel);
    proof {
        assert(r@ =~= slash_joined(base@, rel@));
    }
    r
}

/// The driver facade: classifies probe outcomes and plans rule batches.
/// Opening the device and issuing the ioctls happen outside; every decision
/// about what the outcomes mean and which rules to submit is made here.
pub struct HymoFs;

impl HymoFs {
    /// The version a probe returned: `opened` says whether the control
    /// device could be opened, `ret` is the ioctl's return value and
    /// `value` the version it wrote.
    pub fn get_version(opened: bool, ret: i32, value: i32) -> (r: Option<i32>)
        ensures
            r == if opened && ret >= 0 {
                Option::Some(value)
            } else {
                Option::None::<i32>
            },
    {
        if opened && ret >= 0 {
            Some(value)
        } else {
            None
        }
    }

    /// Classifies a probed version: only an exact match is `Available`; an
    /// older driver, a newer driver and a missing device each surface as
    /// their own status.
    pub fn check_status(version: Option<i32>) -> (r: HymoFsStatus)
        ensures
            r == status_of(version),
    {
        match version {
            None => HymoFsStatus::NotPresent,
            Some(v) => {
                if v == EXPECTED_PROTOCOL_VERSION {
                    HymoFsStatus::Available
                } else if v < EXPECTED_PROTOCOL_VERSION {
                    HymoFsStatus::KernelTooOld
                } else {
                    HymoFsStatus::ModuleTooOld
                }
            },
        }
    }

    /// Is the driver usable at all?
    pub fn is_available(version: Option<i32>) -> (r: bool)
        ensures
            r == (status_of(version) == HymoFsStatus::Available),
    {
        matches!(Self::check_status(version), HymoFsStatus::Available)
    }

    /// The outcome of the clear-all verb, from its ioctl return value.
    pub fn clear(ret: i32) -> (r: Result<(), RuleApplyError>)
        ensures
            ret >= 0 <==> r is Ok,
            ret < 0 ==> r == Err::<(), RuleApplyError>(RuleApplyError::IoctlFailed),
    {
        if ret >= 0 {
            Ok(())
        } else {
            Err(RuleApplyError::IoctlFailed)
        }
    }

    /// The one-rule batch that hides `path`.
    pub fn hide_path(path: &Vec<u8>) -> (rules: Vec<HymoRule>)
        ensures
            rule_views(rules@) == seq![RuleView::Hide { path: path@ }],
    {
        let mut rules: Vec<HymoRule> = Vec::new();
        rules.push(HymoRule::Hide { path: crate::bytes::copy_bytes(path) });
        proof {
            assert(rule_views(rules@) =~= seq![RuleView::Hide { path: path@ }]);
        }
        rules
    }

    /// Plans the rule batch that grafts `module_dir`'s tree under
    /// `target_base`: the walked entries, parent before children, each
    /// contribute their rules in order, after the base itself is registered.
    pub fn inject_directory(target_base: &Vec<u8>, module_dir: &Vec<u8>, entries: &Vec<ScanEntry>)
        -> (rules: Vec<HymoRule>)
        ensures
            rule_views(rules@) == inject_rules(target_base@, module_dir@, entries@),
    {
        let mut rules: Vec<HymoRule> = Vec::new();
        rules.push(HymoRule::Inject { dir: crate::bytes::copy_bytes(target_base) });
        proof {
            assert(entries@.take(0) =~= Seq::<ScanEntry>::empty());
            assert(rule_views(rules@) =~= inject_rules(target_base@, module_dir@, entries@.take(0)));
        }
        let mut i: usize = 0;
        while i < entries.len()
            invariant
                i <= entries@.len(),
                rule_views(rules@) == inject_rules(target_base@, module_dir@, entries@.take(i as int)),
            decreases entries.len() - i,
        {
            let e = &entries[i];
            let ghost before = rules@;
            let tp = join_slash(target_base, &e.rel_path);
            match e.kind {
                EntryKind::Dir => {
                    let tgt = join_slash(module_dir, &e.rel_path);
                    let src = crate::bytes::copy_bytes(&tp);
                    rules.push(HymoRule::Inject { dir: tp });
                    rules.push(
                        HymoRule::Redirect { src, target: tgt, file_type: FILE_TYPE_DIR },
                    );
                },
                EntryKind::CharDev { rdev } => {
                    if rdev == 0 {
                        rules.push(HymoRule::Hide { path: tp });
                    }
                },
                EntryKind::Symlink => {
                    let tgt = join_slash(module_dir, &e.rel_path);
                    rules.push(
                        HymoRule::Redirect { src: tp, target: tgt, file_type: FILE_TYPE_LNK },
                    );
                },
                EntryKind::Regular => {
                    let tgt = join_slash(module_dir, &e.rel_path);
                    rules.push(
                        HymoRule::Redirect { src: tp, target: tgt, file_type: FILE_TYPE_REG },
                    );
                },
            }
            proof {
                assert(entries@.take(i + 1).drop_last() =~= entries@.take(i as int));
                assert(entries@.take(i + 1).last() == entries@[i as int]);
                assert(rule_views(rules@) =~= rule_views(before) + entry_rules(
                    target_base@,
                    module_dir@,
                    entries@[i as int],
                ));
            }
            i = i + 1;
        }
        proof {
            assert(entries@.take(entries@.len() as int) =~= entries@);
        }
        rules
    }
}

/// The wire form of one rule: the opcode to issue, the first string, the
/// optional second string, and the type code, exactly as the driver's
/// argument record carries them (absent strings become null pointers).
pub fn rule_wire(rule: &HymoRule) -> (r: (u32, Vec<u8>, Option<Vec<u8>>, i32))
    ensures
        (rule@ matches RuleView::Redirect { src, target, file_type } ==> r.0 == ioc_code(
            IOC_WRITE,
            HYMO_IOC_MAGIC,
            1,
            HYMO_ARG_SIZE,
        ) && r.1@ == src && (r.2 matches Some(t) && t@ == target) && r.3 == file_type),
        (rule@ matches RuleView::Hide { path } ==> r.0 == ioc_code(
            IOC_WRITE,
            HYMO_IOC_MAGIC,
            3,
            HYMO_ARG_SIZE,
        ) && r.1@ == path && r.2 is None && r.3 == 0),
        (rule@ matches RuleView::Inject { dir } ==> r.0 == ioc_code(
            IOC_WRITE,
            HYMO_IOC_MAGIC,
            4,
            HYMO_ARG_SIZE,
        ) && r.1@ == dir && r.2 is None && r.3 == 0),
{
    match rule {
        HymoRule::Redirect { src, target, file_type } => (
            ioc_add_rule(),
            crate::bytes::copy_bytes(src),
            Some(crate::bytes::copy_bytes(target)),
            *file_type,
        ),
        HymoRule::Hide { path } => (ioc_hide_rule(), crate::bytes::copy_bytes(path), None, 0),
        HymoRule::Inject { dir } => (ioc_inject_rule(), crate::bytes::copy_bytes(dir), None, 0),
    }
}

} // verus!
