//! The overlay composer: given a frozen snapshot of the mount table and of
//! the relevant directory shapes, it plans the layered overlay of one
//! partition — the root overlay, the per-sub-mountpoint child actions, the
//! bind fallbacks and the rollback — as a deterministic state machine whose
//! mount outcomes are fed back in from outside.

use vstd::prelude::*;

use crate::bytes::{
    append_bytes, bytes_eq, bytes_lt, copy_bytes, has_bytes, is_prefix, lex_lt, lemma_lex_connex,
    lemma_lex_trans, starts_with,
};
use crate::hymo::SLASH;

verus! {

/// The `.` character, the frozen stock root in relative paths.
pub const DOT: u8 = 46;

/// The `:` separator of overlay lower-directory options.
pub const COLON: u8 = 58;

/// `mp` lies strictly inside `root`: `root` is a proper prefix and the next
/// byte is a path separator, so `root` itself and its siblings are outside.
pub open spec fn strictly_inside(mp: Seq<u8>, root: Seq<u8>) -> bool {
    mp.len() > root.len() && is_prefix(mp, root) && mp[root.len() as int] == SLASH
}

/// Is `mp` strictly inside `root`?
pub fn check_strictly_inside(mp: &Vec<u8>, root: &Vec<u8>) -> (r: bool)
    ensures
        r == strictly_inside(mp@, root@),
{
    mp.len() > root.len() && starts_with(mp, root) && mp[root.len()] == SLASH
}

/// The elements of `s` are strictly increasing in lexicographic order; in
/// particular no element repeats.
pub open spec fn sorted_strict(s: Seq<Vec<u8>>) -> bool {
    forall|i: int, j: int| 0 <= i < j < s.len() ==> lex_lt(s[i]@, s[j]@)
}

/// Inserts `x` into a strictly sorted list, keeping it sorted and without
/// duplicates.
fn insert_sorted(v: &mut Vec<Vec<u8>>, x: &Vec<u8>)
    requires
        sorted_strict(old(v)@),
    ensures
        sorted_strict(final(v)@),
        forall|y: Seq<u8>|
            has_bytes(final(v)@, y) <==> (has_bytes(old(v)@, y) || y == x@),
{
    let mut i: usize = 0;
    while i < v.len() && bytes_lt(&v[i], x)
        invariant
            i <= v@.len(),
            v@ == old(v)@,
            sorted_strict(v@),
            forall|k: int| 0 <= k < i ==> lex_lt(v@[k]@, x@),
        decreases v.len() - i,
    {
        i = i + 1;
    }
    if i < v.len() && bytes_eq(&v[i], x) {
        proof {
            assert(v@[i as int]@ == x@);
            assert forall|y: Seq<u8>| has_bytes(v@, y) <==> (has_bytes(v@, y) || y == x@) by {
                assert(has_bytes(v@, x@));
            };
        }
        return ;
    }
    let ghost s = v@;
    let ghost ii = i as int;
    v.insert(i, copy_bytes(x));
    proof {
        // the new element is greater than everything before it and, by
        // connexity, smaller than everything at or after its position
        assert forall|k: int| ii <= k < s.len() implies lex_lt(x@, s[k]@) by {
            assert(!lex_lt(s[ii]@, x@));
            assert(s[ii]@ != x@);
            if !lex_lt(x@, s[ii]@) {
                lemma_lex_connex(s[ii]@, x@);
            }
            if ii < k {
                lemma_lex_trans(x@, s[ii]@, s[k]@);
            }
        };
        assert forall|a: int, b: int| 0 <= a < b < v@.len() implies lex_lt(v@[a]@, v@[b]@) by {
            if a < ii && b < ii {
                assert(lex_lt(s[a]@, s[b]@));
            } else if a < ii && b == ii {
                assert(lex_lt(s[a]@, x@));
            } else if a < ii {
                assert(lex_lt(s[a]@, s[b - 1]@));
            } else if a == ii {
                assert(lex_lt(x@, s[b - 1]@));
            } else {
                assert(lex_lt(s[a - 1]@, s[b - 1]@));
            }
        };
        assert forall|y: Seq<u8>| #[trigger] has_bytes(v@, y) implies (has_bytes(s, y) || y
            == x@) by {
            let j = choose|j: int| 0 <= j < v@.len() && v@[j]@ == y;
            if j < ii {
                assert(s[j]@ == y);
            } else if j > ii {
                assert(s[j - 1]@ == y);
            }
        };
        assert(v@[ii]@ == x@);
        assert forall|y: Seq<u8>| has_bytes(s, y) implies #[trigger] has_bytes(v@, y) by {
            let j = choose|j: int| 0 <= j < s.len() && s[j]@ == y;
            if j < ii {
                assert(v@[j]@ == y);
            } else {
                assert(v@[j + 1]@ == y);
            }
        };
    }
}

/// Freezes the mount snapshot of one composition call: of all mount points
/// read from the mount table, exactly those strictly inside `root` are
/// kept, deduplicated and sorted lexicographically.
pub fn build_snapshot(mount_points: &Vec<Vec<u8>>, root: &Vec<u8>) -> (r: Vec<Vec<u8>>)
    ensures
        sorted_strict(r@),
        forall|y: Seq<u8>|
            has_bytes(r@, y) <==> (has_bytes(mount_points@, y) && strictly_inside(y, root@)),
{
    let mut r: Vec<Vec<u8>> = Vec::new();
    let mut i: usize = 0;
    while i < mount_points.len()
        invariant
            i <= mount_points@.len(),
            sorted_strict(r@),
            forall|y: Seq<u8>|
                has_bytes(r@, y) <==> (has_bytes(mount_points@.take(i as int), y)
                    && strictly_inside(y, root@)),
        decreases mount_points.len() - i,
    {
        if check_strictly_inside(&mount_points[i], root) {
            insert_sorted(&mut r, &mount_points[i]);
        }
        proof {
            assert forall|y: Seq<u8>| #[trigger] has_bytes(mount_points@.take(i + 1), y) implies (
            has_bytes(mount_points@.take(i as int), y) || y == mount_points@[i as int]@) by {
                let j = choose|j: int|
                    #![trigger mount_points@.take(i + 1)[j]]
                    0 <= j < mount_points@.take(i + 1).len() && mount_points@.take(i + 1)[j]@
                        == y;
                if j < i {
                    assert(mount_points@.take(i as int)[j]@ == y);
                }
            };
            assert forall|y: Seq<u8>| #[trigger] has_bytes(mount_points@.take(i as int), y)
                implies has_bytes(mount_points@.take(i + 1), y) by {
                let j = choose|j: int|
                    #![trigger mount_points@.take(i as int)[j]]
                    0 <= j < mount_points@.take(i as int).len() && mount_points@.take(
                        i as int,
                    )[j]@ == y;
                assert(mount_points@.take(i + 1)[j]@ == y);
            };
            assert(mount_points@.take(i + 1)[i as int]@ == mount_points@[i as int]@);
        }
        i = i + 1;
    }
    proof {
        assert(mount_points@.take(mount_points@.len() as int) =~= mount_points@);
    }
    r
}

/// What one lower directory contributes at a child mount point's relative
/// path: nothing there, a directory, or something that is not a directory.
#[derive(Clone, Copy, PartialEq, Eq, Structural, Debug)]
pub enum LowerState {
    Missing,
    Dir,
    NonDir,
}

/// One sub-mountpoint of the frozen snapshot, with the observed shape of
/// the stock path and of each lower directory at its relative path. The
/// `lowers` entries align with the composition's ordered lower directories.
#[derive(Debug)]
pub struct ChildInfo {
    pub mount_point: Vec<u8>,
    pub stock_is_dir: bool,
    pub lowers: Vec<LowerState>,
}

/// How one child mount point is treated.
#[derive(Clone, Copy, PartialEq, Eq, Structural, Debug)]
pub enum PlanKind {
    /// Left alone: the stock path is no directory, or some lower path
    /// exists with a conflicting type.
    Skip,
    /// No lower directory contributes: the stock directory is re-bound.
    BindStock,
    /// At least one lower directory contributes: a child overlay is built.
    Overlay,
}

/// Some lower path exists but is not a directory.
pub open spec fn has_nondir(l: Seq<LowerState>) -> bool {
    exists|i: int| 0 <= i < l.len() && l[i] is NonDir
}

/// Some lower path is a directory.
pub open spec fn has_dir(l: Seq<LowerState>) -> bool {
    exists|i: int| 0 <= i < l.len() && l[i] is Dir
}

/// The treatment of one child: a vanished stock directory or an ambiguous
/// type conflict is skipped; untouched mount points are re-bound to stock;
/// the rest get a child overlay of the contributing lower directories.
pub open spec fn plan_of(c: ChildInfo) -> PlanKind {
    if !c.stock_is_dir {
        PlanKind::Skip
    } else if has_nondir(c.lowers@) {
        PlanKind::Skip
    } else if !has_dir(c.lowers@) {
        PlanKind::BindStock
    } else {
        PlanKind::Overlay
    }
}

/// Classifies one child mount point.
pub fn plan_child(c: &ChildInfo) -> (r: PlanKind)
    ensures
        r == plan_of(*c),
{
    if !c.stock_is_dir {
        return PlanKind::Skip;
    }
    let mut i: usize = 0;
    let mut any_dir = false;
    while i < c.lowers.len()
        invariant
            i <= c.lowers@.len(),
            !has_nondir(c.lowers@.take(i as int)),
            any_dir == has_dir(c.lowers@.take(i as int)),
        decreases c.lowers.len() - i,
    {
        let ghost before = c.lowers@.take(i as int);
        match c.lowers[i] {
            LowerState::NonDir => {
                proof {
                    assert(c.lowers@[i as int] is NonDir);
                }
                return PlanKind::Skip;
            },
            LowerState::Dir => {
                any_dir = true;
            },
            LowerState::Missing => {
            },
        }
        proof {
            assert(c.lowers@.take(i + 1).drop_last() =~= before);
            assert(c.lowers@.take(i + 1).last() == c.lowers@[i as int]);
            assert forall|k: int|
                #![trigger c.lowers@.take(i + 1)[k]]
                0 <= k < i + 1 && c.lowers@.take(i + 1)[k] is NonDir implies false by {
                if k < i {
                    assert(before[k] is NonDir);
                }
            };
            if c.lowers@[i as int] is Dir {
                assert(c.lowers@.take(i + 1)[i as int] is Dir);
            }
            assert forall|k: int|
                #![trigger c.lowers@.take(i + 1)[k]]
                0 <= k < i + 1 && c.lowers@.take(i + 1)[k] is Dir implies has_dir(
                c.lowers@.take(i as int),
            ) || c.lowers@[i as int] is Dir by {
                if k < i {
                    assert(before[k] is Dir);
                }
            };
        }
        i = i + 1;
    }
    proof {
        assert(c.lowers@.take(c.lowers@.len() as int) =~= c.lowers@);
    }
    if any_dir {
        PlanKind::Overlay
    } else {
        PlanKind::BindStock
    }
}

/// The views of a list of byte strings.
pub open spec fn byte_views(s: Seq<Vec<u8>>) -> Seq<Seq<u8>> {
    Seq::new(s.len(), |i: int| s[i]@)
}

/// Every lower directory, each followed by a `:`.
pub open spec fn colon_terminated(lowers: Seq<Vec<u8>>) -> Seq<u8>
    decreases lowers.len(),
{
    if lowers.len() == 0 {
        Seq::empty()
    } else {
        colon_terminated(lowers.drop_last()) + lowers.last()@ + seq![COLON]
    }
}

/// The overlay `lowerdir` option value: the ordered lower directories,
/// highest priority first, with the stock root as the lowest layer.
pub open spec fn lowerdir_value(lowers: Seq<Vec<u8>>, lowest: Seq<u8>) -> Seq<u8> {
    colon_terminated(lowers) + lowest
}

/// Joins the lower directories and the lowest layer with `:`.
pub fn overlay_lowerdir_config(lower_dirs: &Vec<Vec<u8>>, lowest: &Vec<u8>) -> (r: Vec<u8>)
    ensures
        r@ == lowerdir_value(lower_dirs@, lowest@),
{
    let mut r: Vec<u8> = Vec::new();
    let mut i: usize = 0;
    proof {
        assert(lower_dirs@.take(0) =~= Seq::<Vec<u8>>::empty());
        assert(r@ =~= colon_terminated(lower_dirs@.take(0)));
    }
    while i < lower_dirs.len()
        invariant
            i <= lower_dirs@.len(),
            r@ == colon_terminated(lower_dirs@.take(i as int)),
        decreases lower_dirs.len() - i,
    {
        append_bytes(&mut r, &lower_dirs[i]);
        r.push(COLON);
        proof {
            assert(lower_dirs@.take(i + 1).drop_last() =~= lower_dirs@.take(i as int));
            assert(lower_dirs@.take(i + 1).last() == lower_dirs@[i as int]);
            assert(r@ =~= colon_terminated(lower_dirs@.take(i + 1)));
        }
        i = i + 1;
    }
    proof {
        assert(lower_dirs@.take(lower_dirs@.len() as int) =~= lower_dirs@);
    }
    append_bytes(&mut r, lowest);
    r
}

/// The `lowerdir=` option tag.
pub open spec fn lowerdir_tag() -> Seq<u8> {
    seq![108u8, 111u8, 119u8, 101u8, 114u8, 100u8, 105u8, 114u8, 61u8]
}

/// The `,upperdir=` option tag.
pub open spec fn upperdir_tag() -> Seq<u8> {
    seq![44u8, 117u8, 112u8, 112u8, 101u8, 114u8, 100u8, 105u8, 114u8, 61u8]
}

/// The `,workdir=` option tag.
pub open spec fn workdir_tag() -> Seq<u8> {
    seq![44u8, 119u8, 111u8, 114u8, 107u8, 100u8, 105u8, 114u8, 61u8]
}

/// The option string handed to the classic overlay mount call:
/// `lowerdir=...` and, when both a writable upper layer and its work
/// directory are given, `,upperdir=...,workdir=...` after it.
pub open spec fn mount_data_value(
    config: Seq<u8>,
    upper: Option<Seq<u8>>,
    work: Option<Seq<u8>>,
) -> Seq<u8> {
    if upper is Some && work is Some {
        lowerdir_tag() + config + upperdir_tag() + upper->0 + workdir_tag() + work->0
    } else {
        lowerdir_tag() + config
    }
}

/// Builds the classic mount option string from the `lowerdir` value and
/// the optional upper and work directories.
pub fn overlay_mount_data(config: &Vec<u8>, upper: Option<&Vec<u8>>, work: Option<&Vec<u8>>) -> (r:
    Vec<u8>)
    ensures
        r@ == mount_data_value(
            config@,
            match upper {
                Option::Some(u) => Option::Some(u@),
                Option::None => Option::None,
            },
            match work {
                Option::Some(w) => Option::Some(w@),
                Option::None => Option::None,
            },
        ),
{
    let mut r: Vec<u8> = Vec::new();
    r.push(108);
    r.push(111);
    r.push(119);
    r.push(101);
    r.push(114);
    r.push(100);
    r.push(105);
    r.push(114);
    r.push(61);
    proof {
        assert(r@ =~= lowerdir_tag());
    }
    append_bytes(&mut r, config);
    if let (Some(u), Some(w)) = (upper, work) {
        let ghost mid = r@;
        r.push(44);
        r.push(117);
        r.push(112);
        r.push(112);
        r.push(101);
        r.push(114);
        r.push(100);
        r.push(105);
        r.push(114);
        r.push(61);
        proof {
            assert(r@ =~= mid + upperdir_tag());
        }
        append_bytes(&mut r, u);
        let ghost mid2 = r@;
        r.push(44);
        r.push(119);
        r.push(111);
        r.push(114);
        r.push(107);
        r.push(100);
        r.push(105);
        r.push(114);
        r.push(61);
        proof {
            assert(r@ =~= mid2 + workdir_tag());
        }
        append_bytes(&mut r, w);
        proof {
            assert(r@ =~= lowerdir_tag() + config@ + upperdir_tag() + u@ + workdir_tag() + w@);
        }
    }
    r
}

/// A child's path relative to the partition root. It keeps its leading
/// slash, so joining is plain concatenation.
pub open spec fn child_rel(c: ChildInfo, root: Seq<u8>) -> Seq<u8> {
    c.mount_point@.skip(root.len() as int)
}

/// The frozen stock path of a child: the relative path under `.`, the
/// working directory pinned to the stock tree before the root overlay
/// shadows it.
pub open spec fn child_stock(c: ChildInfo, root: Seq<u8>) -> Seq<u8> {
    seq![DOT] + child_rel(c, root)
}

/// The contributing lower directories among the first `k`, each joined
/// with the child's relative path, in their original order.
pub open spec fn contrib_upto(
    lowers: Seq<Vec<u8>>,
    states: Seq<LowerState>,
    rel: Seq<u8>,
    k: int,
) -> Seq<Seq<u8>>
    decreases k,
{
    if k <= 0 {
        Seq::empty()
    } else {
        contrib_upto(lowers, states, rel, k - 1) + if states[k - 1] is Dir {
            seq![lowers[k - 1]@ + rel]
        } else {
            Seq::empty()
        }
    }
}

/// All contributing lower directories of a child.
pub open spec fn contrib_lowers(lowers: Seq<Vec<u8>>, states: Seq<LowerState>, rel: Seq<u8>) -> Seq<
    Seq<u8>,
> {
    contrib_upto(lowers, states, rel, states.len() as int)
}

/// Copies `mp` from `root`'s length on: the child's relative path.
fn child_rel_path(mp: &Vec<u8>, root: &Vec<u8>) -> (r: Vec<u8>)
    requires
        root@.len() <= mp@.len(),
    ensures
        r@ == mp@.skip(root@.len() as int),
{
    let mut r: Vec<u8> = Vec::new();
    let mut i: usize = root.len();
    while i < mp.len()
        invariant
            root@.len() <= i <= mp@.len(),
            r@ =~= mp@.subrange(root@.len() as int, i as int),
        decreases mp.len() - i,
    {
        r.push(mp[i]);
        i = i + 1;
    }
    proof {
        assert(r@ =~= mp@.skip(root@.len() as int));
    }
    r
}

/// Copies a list of byte strings.
fn copy_byte_list(v: &Vec<Vec<u8>>) -> (r: Vec<Vec<u8>>)
    ensures
        byte_views(r@) == byte_views(v@),
{
    let mut r: Vec<Vec<u8>> = Vec::new();
    let mut i: usize = 0;
    while i < v.len()
        invariant
            i <= v@.len(),
            r@.len() == i,
            forall|k: int| 0 <= k < i ==> r@[k]@ == v@[k]@,
        decreases v.len() - i,
    {
        r.push(copy_bytes(&v[i]));
        i = i + 1;
    }
    proof {
        assert(byte_views(r@) =~= byte_views(v@));
    }
    r
}

/// How one composition run can fail.
#[derive(Clone, Copy, PartialEq, Eq, Structural, Debug)]
pub enum ComposeError {
    /// The root overlay could not be mounted; the partition is untouched.
    RootMountFailed,
    /// A child mount failed, its bind fallback failed too, and the root
    /// overlay was unmounted again.
    ChildMountFailed { index: usize },
    /// As above, but unmounting the root overlay failed as well.
    RollbackFailed { index: usize },
}

/// Where a composition run stands: which outcome it is waiting for.
#[derive(Clone, Copy, PartialEq, Eq, Structural, Debug)]
pub enum Phase {
    /// Waiting for the root overlay mount.
    Root,
    /// Waiting for child `idx`'s planned action.
    Child { idx: usize },
    /// Waiting for child `idx`'s bind fallback after its overlay failed.
    Fallback { idx: usize },
    /// Waiting for the rollback unmount after child `idx` failed for good.
    Rollback { idx: usize },
    /// Finished, successfully or not.
    Done,
}

/// What the caller is asked to do next. Every mount action carries the
/// exact paths; `Done` ends the run with its outcome.
#[derive(Debug, PartialEq)]
pub enum ComposeAction {
    /// Mount an overlay at `dest` with the given lower directories,
    /// highest priority first, and `lowest` as the bottom layer.
    MountOverlay { dest: Vec<u8>, lowers: Vec<Vec<u8>>, lowest: Vec<u8> },
    /// Bind the frozen stock directory back onto its mount point.
    BindStock { from: Vec<u8>, to: Vec<u8> },
    /// Detach the root overlay: the rollback path.
    UnmountRoot { dest: Vec<u8> },
    /// The run is over.
    Done { result: Result<(), ComposeError> },
}

/// The abstract shape of an action, for stating the machine's transitions.
pub enum ActionView {
    MountRootOverlay,
    MountChildOverlay { idx: int },
    BindChild { idx: int },
    UnmountRoot,
    Done { result: Result<(), ComposeError> },
}

/// The first child at or after `i` that is not skipped, or the length if
/// every remaining child is skipped.
pub open spec fn next_active(children: Seq<ChildInfo>, i: int) -> int
    decreases children.len() - i when 0 <= i <= children.len()
{
    if i >= children.len() {
        children.len() as int
    } else if plan_of(children[i]) != PlanKind::Skip {
        i
    } else {
        next_active(children, i + 1)
    }
}

/// `next_active` lands between `i` and the end, on a non-skipped child if
/// on any, and skips only skipped children.
pub proof fn lemma_next_active(children: Seq<ChildInfo>, i: int)
    requires
        0 <= i <= children.len(),
    ensures
        i <= next_active(children, i) <= children.len(),
        next_active(children, i) < children.len() ==> plan_of(
            children[next_active(children, i)],
        ) != PlanKind::Skip,
        forall|k: int|
            i <= k < next_active(children, i) ==> plan_of(#[trigger] children[k])
                == PlanKind::Skip,
    decreases children.len() - i,
{
    if i < children.len() && plan_of(children[i]) == PlanKind::Skip {
        lemma_next_active(children, i + 1);
    }
}

/// The phase and action the machine takes up when it advances to the next
/// child at or after `i`.
pub open spec fn advance_view(children: Seq<ChildInfo>, i: int) -> (Phase, ActionView) {
    let j = next_active(children, i);
    if j == children.len() {
        (Phase::Done, ActionView::Done { result: Result::<(), ComposeError>::Ok(()) })
    } else if plan_of(children[j]) == PlanKind::Overlay {
        (Phase::Child { idx: j as usize }, ActionView::MountChildOverlay { idx: j })
    } else {
        (Phase::Child { idx: j as usize }, ActionView::BindChild { idx: j })
    }
}

/// The machine's transition: what the outcome `ok` of the awaited action
/// leads to. A root failure ends the run with the partition untouched; a
/// child overlay failure falls back to a bind of the stock directory; a
/// failed bind escalates to the rollback, which unmounts the root overlay
/// and reports the failure.
pub open spec fn step_view(children: Seq<ChildInfo>, phase: Phase, ok: bool) -> (
    Phase,
    ActionView,
) {
    match phase {
        Phase::Root => if ok {
            advance_view(children, 0)
        } else {
            (
                Phase::Done,
                ActionView::Done {
                    result: Result::<(), ComposeError>::Err(ComposeError::RootMountFailed),
                },
            )
        },
        Phase::Child { idx } => if ok {
            advance_view(children, idx + 1)
        } else if plan_of(children[idx as int]) == PlanKind::Overlay {
            (Phase::Fallback { idx }, ActionView::BindChild { idx: idx as int })
        } else {
            (Phase::Rollback { idx }, ActionView::UnmountRoot)
        },
        Phase::Fallback { idx } => if ok {
            advance_view(children, idx + 1)
        } else {
            (Phase::Rollback { idx }, ActionView::UnmountRoot)
        },
        Phase::Rollback { idx } => (
            Phase::Done,
            ActionView::Done {
                result: Result::<(), ComposeError>::Err(
                    if ok {
                        ComposeError::ChildMountFailed { index: idx }
                    } else {
                        ComposeError::RollbackFailed { index: idx }
                    },
                ),
            },
        ),
        Phase::Done => (Phase::Done, ActionView::Done { result: Result::<(), ComposeError>::Ok(()) }),
    }
}

/// One composition run for one partition: the frozen inputs and the phase
/// the run stands in. The caller performs each returned action and feeds
/// its outcome back through [`ComposeSession::step`].
pub struct ComposeSession {
    pub root: Vec<u8>,
    pub lowers: Vec<Vec<u8>>,
    pub children: Vec<ChildInfo>,
    pub phase: Phase,
}

impl ComposeSession {
    /// The frozen inputs fit together, and the phase points at a child
    /// consistent with its plan.
    pub open spec fn wf(&self) -> bool {
        &&& forall|i: int|
            0 <= i < self.children@.len() ==> (#[trigger] self.children@[i]).lowers@.len()
                == self.lowers@.len()
        &&& forall|i: int|
            0 <= i < self.children@.len() ==> strictly_inside(
                (#[trigger] self.children@[i]).mount_point@,
                self.root@,
            )
        &&& match self.phase {
            Phase::Child { idx } => idx < self.children@.len() && plan_of(
                self.children@[idx as int],
            ) != PlanKind::Skip,
            Phase::Fallback { idx } => idx < self.children@.len() && plan_of(
                self.children@[idx as int],
            ) == PlanKind::Overlay,
            Phase::Rollback { idx } => idx < self.children@.len(),
            _ => true,
        }
    }

    /// The exec action `a` is the action `av` describes, with the paths of
    /// this session filled in.
    pub open spec fn action_matches(&self, a: ComposeAction, av: ActionView) -> bool {
        match av {
            ActionView::MountRootOverlay => a matches ComposeAction::MountOverlay {
                dest,
                lowers,
                lowest,
            } && dest@ == self.root@ && byte_views(lowers@) == byte_views(self.lowers@) && lowest@
                == self.root@,
            ActionView::MountChildOverlay { idx } => a matches ComposeAction::MountOverlay {
                dest,
                lowers,
                lowest,
            } && dest@ == self.children@[idx].mount_point@ && byte_views(lowers@)
                == contrib_lowers(
                self.lowers@,
                self.children@[idx].lowers@,
                child_rel(self.children@[idx], self.root@),
            ) && lowest@ == child_stock(self.children@[idx], self.root@),
            ActionView::BindChild { idx } => a matches ComposeAction::BindStock { from, to }
                && from@ == child_stock(self.children@[idx], self.root@) && to@
                == self.children@[idx].mount_point@,
            ActionView::UnmountRoot => a matches ComposeAction::UnmountRoot { dest } && dest@
                == self.root@,
            ActionView::Done { result } => a matches ComposeAction::Done { result: r } && r
                == result,
        }
    }

    /// Opens a run: the root overlay mount is always the first action, the
    /// ordered lower directories over the stock root itself.
    pub fn start(root: Vec<u8>, lowers: Vec<Vec<u8>>, children: Vec<ChildInfo>) -> (r: (
        ComposeSession,
        ComposeAction,
    ))
        requires
            forall|i: int|
                0 <= i < children@.len() ==> (#[trigger] children@[i]).lowers@.len()
                    == lowers@.len(),
            forall|i: int|
                0 <= i < children@.len() ==> strictly_inside(
                    (#[trigger] children@[i]).mount_point@,
                    root@,
                ),
        ensures
            r.0.wf(),
            r.0.root == root,
            r.0.lowers == lowers,
            r.0.children == children,
            r.0.phase == Phase::Root,
            r.0.action_matches(r.1, ActionView::MountRootOverlay),
    {
        let dest = copy_bytes(&root);
        let lowest = copy_bytes(&root);
        let lws = copy_byte_list(&lowers);
        let s = ComposeSession { root, lowers, children, phase: Phase::Root };
        (s, ComposeAction::MountOverlay { dest, lowers: lws, lowest })
    }

    /// The contributing lower directories of child `idx`, each joined with
    /// the child's relative path.
    fn child_lower_dirs(&self, idx: usize) -> (r: Vec<Vec<u8>>)
        requires
            self.wf(),
            idx < self.children@.len(),
        ensures
            byte_views(r@) == contrib_lowers(
                self.lowers@,
                self.children@[idx as int].lowers@,
                child_rel(self.children@[idx as int], self.root@),
            ),
    {
        let c = &self.children[idx];
        let rel = child_rel_path(&c.mount_point, &self.root);
        let mut r: Vec<Vec<u8>> = Vec::new();
        let mut k: usize = 0;
        while k < c.lowers.len()
            invariant
                k <= c.lowers@.len(),
                c.lowers@.len() == self.lowers@.len(),
                rel@ == child_rel(*c, self.root@),
                byte_views(r@) =~= contrib_upto(self.lowers@, c.lowers@, rel@, k as int),
            decreases c.lowers.len() - k,
        {
            if matches!(c.lowers[k], LowerState::Dir) {
                let mut p = copy_bytes(&self.lowers[k]);
                append_bytes(&mut p, &rel);
                r.push(p);
            }
            proof {
                assert(byte_views(r@) =~= contrib_upto(self.lowers@, c.lowers@, rel@, k + 1));
            }
            k = k + 1;
        }
        r
    }

    /// The bind-fallback action of child `idx`: the frozen stock directory
    /// back onto the mount point.
    fn bind_action(&self, idx: usize) -> (a: ComposeAction)
        requires
            self.wf(),
            idx < self.children@.len(),
        ensures
            self.action_matches(a, ActionView::BindChild { idx: idx as int }),
    {
        let c = &self.children[idx];
        let rel = child_rel_path(&c.mount_point, &self.root);
        let mut from: Vec<u8> = Vec::new();
        from.push(DOT);
        append_bytes(&mut from, &rel);
        proof {
            assert(from@ =~= child_stock(self.children@[idx as int], self.root@));
        }
        ComposeAction::BindStock { from, to: copy_bytes(&c.mount_point) }
    }

    /// Advances to the next child at or after `from`, skipping the skipped
    /// ones, and produces its planned action — or ends the run.
    fn advance(&self, from: usize) -> (r: (Phase, ComposeAction))
        requires
            self.wf(),
            from <= self.children@.len(),
        ensures
            r.0 == advance_view(self.children@, from as int).0,
            self.action_matches(r.1, advance_view(self.children@, from as int).1),
            r.0 matches Phase::Child { idx } ==> idx < self.children@.len() && plan_of(
                self.children@[idx as int],
            ) != PlanKind::Skip,
            r.0 matches Phase::Child { idx } || r.0 is Done,
    {
        let mut j = from;
        while j < self.children.len() && matches!(plan_child(&self.children[j]), PlanKind::Skip)
            invariant
                from <= j <= self.children@.len(),
                next_active(self.children@, from as int) == next_active(self.children@, j as int),
            decreases self.children.len() - j,
        {
            j = j + 1;
        }
        if j == self.children.len() {
            (Phase::Done, ComposeAction::Done { result: Ok(()) })
        } else {
            let c = &self.children[j];
            match plan_child(c) {
                PlanKind::Overlay => {
                    let lowers = self.child_lower_dirs(j);
                    let rel = child_rel_path(&c.mount_point, &self.root);
                    let mut lowest: Vec<u8> = Vec::new();
                    lowest.push(DOT);
                    append_bytes(&mut lowest, &rel);
                    proof {
                        assert(lowest@ =~= child_stock(self.children@[j as int], self.root@));
                    }
                    (
                        Phase::Child { idx: j },
                        ComposeAction::MountOverlay {
                            dest: copy_bytes(&c.mount_point),
                            lowers,
                            lowest,
                        },
                    )
                },
                _ => (Phase::Child { idx: j }, self.bind_action(j)),
            }
        }
    }

    /// Feeds back the outcome of the awaited action and returns the next
    /// one. The transition is exactly [`step_view`] of the frozen inputs.
    pub fn step(&mut self, ok: bool) -> (a: ComposeAction)
        requires
            old(self).wf(),
            !(old(self).phase is Done),
        ensures
            final(self).wf(),
            final(self).root == old(self).root,
            final(self).lowers == old(self).lowers,
            final(self).children == old(self).children,
            final(self).phase == step_view(old(self).children@, old(self).phase, ok).0,
            final(self).action_matches(a, step_view(old(self).children@, old(self).phase, ok).1),
    {
        proof {
            if let Phase::Child { idx } = old(self).phase {
                lemma_next_active(old(self).children@, idx + 1);
            }
            if let Phase::Fallback { idx } = old(self).phase {
                lemma_next_active(old(self).children@, idx + 1);
            }
            lemma_next_active(old(self).children@, 0);
        }
        match self.phase {
            Phase::Root => {
                if ok {
                    let r = self.advance(0);
                    self.phase = r.0;
                    r.1
                } else {
                    self.phase = Phase::Done;
                    ComposeAction::Done { result: Err(ComposeError::RootMountFailed) }
                }
            },
            Phase::Child { idx } => {
                let n = self.children.len();
                proof {
                    assert(self.phase == Phase::Child { idx });
                    assert(idx < n);
                }
                if ok {
                    let r = self.advance(idx + 1);
                    self.phase = r.0;
                    r.1
                } else {
                    match plan_child(&self.children[idx]) {
                        PlanKind::Overlay => {
                            let a = self.bind_action(idx);
                            self.phase = Phase::Fallback { idx };
                            a
                        },
                        _ => {
                            self.phase = Phase::Rollback { idx };
                            ComposeAction::UnmountRoot { dest: copy_bytes(&self.root) }
                        },
                    }
                }
            },
            Phase::Fallback { idx } => {
                let n = self.children.len();
                proof {
                    assert(self.phase == Phase::Fallback { idx });
                    assert(idx < n);
                }
                if ok {
                    let r = self.advance(idx + 1);
                    self.phase = r.0;
                    r.1
                } else {
                    self.phase = Phase::Rollback { idx };
                    ComposeAction::UnmountRoot { dest: copy_bytes(&self.root) }
                }
            },
            Phase::Rollback { idx } => {
                proof {
                    assert(self.phase == Phase::Rollback { idx });
                }
                self.phase = Phase::Done;
                if ok {
                    ComposeAction::Done { result: Err(ComposeError::ChildMountFailed { index: idx }) }
                } else {
                    ComposeAction::Done { result: Err(ComposeError::RollbackFailed { index: idx }) }
                }
            },
            Phase::Done => {
                ComposeAction::Done { result: Ok(()) }
            },
        }
    }
}

/// A sub-mountpoint that none of the lower directories touches, and whose
/// stock directory still exists, is re-bound to its pre-overlay stock
/// content rather than skipped or overlaid.
pub proof fn lemma_untouched_child_rebinds(c: ChildInfo)
    requires
        c.stock_is_dir,
        forall|k: int| 0 <= k < c.lowers@.len() ==> (#[trigger] c.lowers@[k]) is Missing,
    ensures
        plan_of(c) == PlanKind::BindStock,
{
}

/// A failed child overlay falls back to binding the stock directory; if
/// the bind fails too, the machine unmounts the root overlay and, whatever
/// the unmount's own outcome, ends the run reporting failure: a partially
/// composed partition is never left standing.
pub proof fn lemma_child_failure_rolls_back(children: Seq<ChildInfo>, idx: usize)
    requires
        idx < children.len(),
        plan_of(children[idx as int]) == PlanKind::Overlay,
    ensures
        step_view(children, Phase::Child { idx }, false) == (
            Phase::Fallback { idx },
            ActionView::BindChild { idx: idx as int },
        ),
        step_view(children, Phase::Fallback { idx }, false) == (
            Phase::Rollback { idx },
            ActionView::UnmountRoot,
        ),
        step_view(children, Phase::Rollback { idx }, true) == (
            Phase::Done,
            ActionView::Done {
                result: Result::<(), ComposeError>::Err(
                    ComposeError::ChildMountFailed { index: idx },
                ),
            },
        ),
        step_view(children, Phase::Rollback { idx }, false) == (
            Phase::Done,
            ActionView::Done {
                result: Result::<(), ComposeError>::Err(
                    ComposeError::RollbackFailed { index: idx },
                ),
            },
        ),
{
}

/// A failed root overlay mount ends the run at once: no child action, no
/// rollback, the partition untouched.
pub proof fn lemma_root_failure_aborts(children: Seq<ChildInfo>)
    ensures
        step_view(children, Phase::Root, false) == (
            Phase::Done,
            ActionView::Done {
                result: Result::<(), ComposeError>::Err(ComposeError::RootMountFailed),
            },
        ),
{
}

} // verus!
