//! The module classifier: which directories under the populated storage
//! root count as modules, which mount mode each resolves to, and which
//! partitions each one layers — the per-partition plans for the overlay
//! composer and the set handed to the magic-mount engine.

use vstd::prelude::*;

use crate::bytes::{bytes_eq, copy_bytes, has_bytes, list_contains};
use crate::compose::byte_views;

verus! {

/// The tool's own reserved module id, `meta-hybrid`.
pub open spec fn meta_hybrid_id() -> Seq<u8> {
    seq![109u8, 101u8, 116u8, 97u8, 45u8, 104u8, 121u8, 98u8, 114u8, 105u8, 100u8]
}

/// The filesystem housekeeping entry `lost+found`.
pub open spec fn lost_found_id() -> Seq<u8> {
    seq![108u8, 111u8, 115u8, 116u8, 43u8, 102u8, 111u8, 117u8, 110u8, 100u8]
}

/// Ids that never name a module.
pub open spec fn reserved_id(id: Seq<u8>) -> bool {
    id == meta_hybrid_id() || id == lost_found_id()
}

/// Is `id` one of the reserved names?
pub fn is_reserved_id(id: &Vec<u8>) -> (r: bool)
    ensures
        r == reserved_id(id@),
{
    let mut meta: Vec<u8> = Vec::new();
    meta.push(109);
    meta.push(101);
    meta.push(116);
    meta.push(97);
    meta.push(45);
    meta.push(104);
    meta.push(121);
    meta.push(98);
    meta.push(114);
    meta.push(105);
    meta.push(100);
    let mut lost: Vec<u8> = Vec::new();
    lost.push(108);
    lost.push(111);
    lost.push(115);
    lost.push(116);
    lost.push(43);
    lost.push(102);
    lost.push(111);
    lost.push(117);
    lost.push(110);
    lost.push(100);
    proof {
        assert(meta@ =~= meta_hybrid_id());
        assert(lost@ =~= lost_found_id());
    }
    bytes_eq(id, &meta) || bytes_eq(id, &lost)
}

/// The names of the partitions every build knows.
pub open spec fn builtin_partition_names() -> Seq<Seq<u8>> {
    seq![seq![115u8, 121u8, 115u8, 116u8, 101u8, 109u8], seq![118u8, 101u8, 110u8, 100u8, 111u8, 114u8], seq![112u8, 114u8, 111u8, 100u8, 117u8, 99u8, 116u8], seq![115u8, 121u8, 115u8, 116u8, 101u8, 109u8, 95u8, 101u8, 120u8, 116u8], seq![111u8, 100u8, 109u8], seq![111u8, 101u8, 109u8]]
}

/// Builds the builtin partition-name list.
pub fn builtin_partitions() -> (r: Vec<Vec<u8>>)
    ensures
        byte_views(r@) == builtin_partition_names(),
{
    let mut r: Vec<Vec<u8>> = Vec::new();
    let mut p_system: Vec<u8> = Vec::new();
    p_system.push(115);
    p_system.push(121);
    p_system.push(115);
    p_system.push(116);
    p_system.push(101);
    p_system.push(109);
    proof {
        assert(p_system@ =~= seq![115u8, 121u8, 115u8, 116u8, 101u8, 109u8]);
    }
    r.push(p_system);
    let mut p_vendor: Vec<u8> = Vec::new();
    p_vendor.push(118);
    p_vendor.push(101);
    p_vendor.push(110);
    p_vendor.push(100);
    p_vendor.push(111);
    p_vendor.push(114);
    proof {
        assert(p_vendor@ =~= seq![118u8, 101u8, 110u8, 100u8, 111u8, 114u8]);
    }
    r.push(p_vendor);
    let mut p_product: Vec<u8> = Vec::new();
    p_product.push(112);
    p_product.push(114);
    p_product.push(111);
    p_product.push(100);
    p_product.push(117);
    p_product.push(99);
    p_product.push(116);
    proof {
        assert(p_product@ =~= seq![112u8, 114u8, 111u8, 100u8, 117u8, 99u8, 116u8]);
    }
    r.push(p_product);
    let mut p_system_ext: Vec<u8> = Vec::new();
    p_system_ext.push(115);
    p_system_ext.push(121);
    p_system_ext.push(115);
    p_system_ext.push(116);
    p_system_ext.push(101);
    p_system_ext.push(109);
    p_system_ext.push(95);
    p_system_ext.push(101);
    p_system_ext.push(120);
    p_system_ext.push(116);
    proof {
        assert(p_system_ext@ =~= seq![115u8, 121u8, 115u8, 116u8, 101u8, 109u8, 95u8, 101u8, 120u8, 116u8]);
    }
    r.push(p_system_ext);
    let mut p_odm: Vec<u8> = Vec::new();
    p_odm.push(111);
    p_odm.push(100);
    p_odm.push(109);
    proof {
        assert(p_odm@ =~= seq![111u8, 100u8, 109u8]);
    }
    r.push(p_odm);
    let mut p_oem: Vec<u8> = Vec::new();
    p_oem.push(111);
    p_oem.push(101);
    p_oem.push(109);
    proof {
        assert(p_oem@ =~= seq![111u8, 101u8, 109u8]);
    }
    r.push(p_oem);
    proof {
        assert(byte_views(r@) =~= builtin_partition_names());
    }
    r
}

/// The mount mode a module resolves to.
#[derive(Clone, Copy, PartialEq, Eq, Structural, Debug)]
pub enum MountMode {
    /// Layered into the partition overlays.
    Auto,
    /// Grafted by the magic-mount engine; never layered.
    Magic,
}

/// One entry of the mode-override mapping.
#[derive(Debug, Clone)]
pub struct ModeOverride {
    pub id: Vec<u8>,
    pub mode: MountMode,
}

/// What one directory entry under the populated storage root looks like:
/// its name, its content path, whether it is a directory, which marker
/// files it carries, and the names of its subdirectories.
#[derive(Debug)]
pub struct ModuleScan {
    pub id: Vec<u8>,
    pub content_path: Vec<u8>,
    pub is_dir: bool,
    pub disable: bool,
    pub remove: bool,
    pub skip_mount: bool,
    pub subdirs: Vec<Vec<u8>>,
}

/// The ordered layer list of one partition: content paths in discovery
/// order, first entry with highest overlay precedence.
#[derive(Debug)]
pub struct PartitionPlan {
    pub partition: Vec<u8>,
    pub layers: Vec<Vec<u8>>,
}

/// The mode `id` resolves to: the first override naming it, `Auto` when
/// none does.
pub open spec fn resolved_mode(overrides: Seq<ModeOverride>, id: Seq<u8>) -> MountMode
    decreases overrides.len(),
{
    if overrides.len() == 0 {
        MountMode::Auto
    } else if overrides[0].id@ == id {
        overrides[0].mode
    } else {
        resolved_mode(overrides.skip(1), id)
    }
}

/// Resolves the mode of `id` from the override mapping.
pub fn resolve_mode(overrides: &Vec<ModeOverride>, id: &Vec<u8>) -> (m: MountMode)
    ensures
        m == resolved_mode(overrides@, id@),
{
    let mut i: usize = 0;
    proof {
        assert(overrides@.skip(0) =~= overrides@);
    }
    while i < overrides.len()
        invariant
            i <= overrides@.len(),
            resolved_mode(overrides@, id@) == resolved_mode(overrides@.skip(i as int), id@),
        decreases overrides.len() - i,
    {
        proof {
            assert(overrides@.skip(i as int)[0] == overrides@[i as int]);
            assert(overrides@.skip(i as int).skip(1) =~= overrides@.skip(i + 1));
        }
        if bytes_eq(&overrides[i].id, id) {
            return overrides[i].mode;
        }
        i = i + 1;
    }
    MountMode::Auto
}

/// Does `subdirs` hold some recognized partition name?
pub open spec fn has_any_partition(subdirs: Seq<Vec<u8>>, partitions: Seq<Seq<u8>>) -> bool {
    exists|i: int| 0 <= i < partitions.len() && has_bytes(subdirs, partitions[i])
}

/// A directory entry is an eligible module: a directory, not reserved, no
/// marker file present, and holding at least one recognized partition
/// subdirectory.
pub open spec fn eligible(m: ModuleScan, partitions: Seq<Seq<u8>>) -> bool {
    m.is_dir && !reserved_id(m.id@) && !m.disable && !m.remove && !m.skip_mount
        && has_any_partition(m.subdirs@, partitions)
}

/// Is this entry an eligible module?
pub fn module_eligible(m: &ModuleScan, partitions: &Vec<Vec<u8>>) -> (r: bool)
    ensures
        r == eligible(*m, byte_views(partitions@)),
{
    if !m.is_dir || m.disable || m.remove || m.skip_mount {
        return false;
    }
    if is_reserved_id(&m.id) {
        return false;
    }
    let mut i: usize = 0;
    while i < partitions.len()
        invariant
            i <= partitions@.len(),
            m.is_dir && !m.disable && !m.remove && !m.skip_mount,
            !reserved_id(m.id@),
            forall|j: int| 0 <= j < i ==> !has_bytes(m.subdirs@, byte_views(partitions@)[j]),
        decreases partitions.len() - i,
    {
        if list_contains(&m.subdirs, &partitions[i]) {
            proof {
                assert(has_any_partition(m.subdirs@, byte_views(partitions@))) by {
                    assert(has_bytes(m.subdirs@, byte_views(partitions@)[i as int]));
                }
            }
            return true;
        }
        i = i + 1;
    }
    proof {
        assert(!has_any_partition(m.subdirs@, byte_views(partitions@))) by {
            if has_any_partition(m.subdirs@, byte_views(partitions@)) {
                let q = choose|q: int|
                    0 <= q < byte_views(partitions@).len() && has_bytes(
                        m.subdirs@,
                        byte_views(partitions@)[q],
                    );
                assert(!has_bytes(m.subdirs@, byte_views(partitions@)[q]));
            }
        }
    }
    false
}

/// The module is eligible, resolves to `Auto`, and carries this partition.
pub open spec fn in_plan(
    m: ModuleScan,
    overrides: Seq<ModeOverride>,
    partitions: Seq<Seq<u8>>,
    part: Seq<u8>,
) -> bool {
    eligible(m, partitions) && resolved_mode(overrides, m.id@) == MountMode::Auto && has_bytes(
        m.subdirs@,
        part,
    )
}

/// The layer list of one partition: the content paths of the modules that
/// carry it, in discovery order.
pub open spec fn plan_layers(
    mods: Seq<ModuleScan>,
    overrides: Seq<ModeOverride>,
    partitions: Seq<Seq<u8>>,
    part: Seq<u8>,
) -> Seq<Seq<u8>>
    decreases mods.len(),
{
    if mods.len() == 0 {
        Seq::empty()
    } else {
        plan_layers(mods.drop_last(), overrides, partitions, part) + if in_plan(
            mods.last(),
            overrides,
            partitions,
            part,
        ) {
            seq![mods.last().content_path@]
        } else {
            Seq::empty()
        }
    }
}

/// The module is eligible and resolves to `Magic`.
pub open spec fn is_magic(
    m: ModuleScan,
    overrides: Seq<ModeOverride>,
    partitions: Seq<Seq<u8>>,
) -> bool {
    eligible(m, partitions) && resolved_mode(overrides, m.id@) == MountMode::Magic
}

/// The content paths of the magic-mode modules, in discovery order.
pub open spec fn magic_list(
    mods: Seq<ModuleScan>,
    overrides: Seq<ModeOverride>,
    partitions: Seq<Seq<u8>>,
) -> Seq<Seq<u8>>
    decreases mods.len(),
{
    if mods.len() == 0 {
        Seq::empty()
    } else {
        magic_list(mods.drop_last(), overrides, partitions) + if is_magic(
            mods.last(),
            overrides,
            partitions,
        ) {
            seq![mods.last().content_path@]
        } else {
            Seq::empty()
        }
    }
}

/// Groups the scanned modules: for every recognized partition, builtin
/// names first and configured extras after them, the ordered layer list of
/// the `Auto` modules that carry it; and, apart, the content paths of the
/// `Magic` modules, which appear in no layer list.
pub fn classify(
    modules: &Vec<ModuleScan>,
    overrides: &Vec<ModeOverride>,
    extra_partitions: &Vec<Vec<u8>>,
) -> (r: (Vec<PartitionPlan>, Vec<Vec<u8>>))
    ensures
        r.0@.len() == builtin_partition_names().len() + extra_partitions@.len(),
        forall|k: int|
            0 <= k < r.0@.len() ==> (#[trigger] r.0@[k]).partition@ == (builtin_partition_names()
                + byte_views(extra_partitions@))[k],
        forall|k: int|
            0 <= k < r.0@.len() ==> byte_views((#[trigger] r.0@[k]).layers@) == plan_layers(
                modules@,
                overrides@,
                builtin_partition_names() + byte_views(extra_partitions@),
                (builtin_partition_names() + byte_views(extra_partitions@))[k],
            ),
        byte_views(r.1@) == magic_list(
            modules@,
            overrides@,
            builtin_partition_names() + byte_views(extra_partitions@),
        ),
{
    let mut all_parts = builtin_partitions();
    let ghost nb = builtin_partition_names().len() as int;
    let mut e: usize = 0;
    while e < extra_partitions.len()
        invariant
            e <= extra_partitions@.len(),
            nb == builtin_partition_names().len(),
            all_parts@.len() == nb + e,
            forall|t: int|
                0 <= t < nb ==> (#[trigger] all_parts@[t])@ == builtin_partition_names()[t],
            forall|u: int|
                0 <= u < e ==> (#[trigger] all_parts@[nb + u])@ == extra_partitions@[u]@,
        decreases extra_partitions.len() - e,
    {
        all_parts.push(copy_bytes(&extra_partitions[e]));
        e = e + 1;
    }
    proof {
        assert forall|t: int| 0 <= t < all_parts@.len() implies byte_views(all_parts@)[t] == (
        builtin_partition_names() + byte_views(extra_partitions@))[t] by {
            if t >= nb {
                assert(all_parts@[nb + (t - nb)]@ == extra_partitions@[t - nb]@);
            } else {
                assert(all_parts@[t]@ == builtin_partition_names()[t]);
            }
        };
        assert(byte_views(all_parts@) =~= builtin_partition_names() + byte_views(
            extra_partitions@,
        ));
    }
    let ghost parts = byte_views(all_parts@);

    let mut plans: Vec<PartitionPlan> = Vec::new();
    let mut k: usize = 0;
    while k < all_parts.len()
        invariant
            k <= all_parts@.len(),
            parts == byte_views(all_parts@),
            plans@.len() == k,
            forall|q: int| 0 <= q < k ==> (#[trigger] plans@[q]).partition@ == parts[q],
            forall|q: int|
                0 <= q < k ==> byte_views((#[trigger] plans@[q]).layers@) == plan_layers(
                    modules@,
                    overrides@,
                    parts,
                    parts[q],
                ),
        decreases all_parts.len() - k,
    {
        let mut layers: Vec<Vec<u8>> = Vec::new();
        let mut j: usize = 0;
        proof {
            assert(modules@.take(0) =~= Seq::<ModuleScan>::empty());
            assert(byte_views(layers@) =~= plan_layers(
                modules@.take(0),
                overrides@,
                parts,
                parts[k as int],
            ));
        }
        while j < modules.len()
            invariant
                j <= modules@.len(),
                k < all_parts@.len(),
                parts == byte_views(all_parts@),
                byte_views(layers@) == plan_layers(
                    modules@.take(j as int),
                    overrides@,
                    parts,
                    parts[k as int],
                ),
            decreases modules.len() - j,
        {
            let m = &modules[j];
            if module_eligible(m, &all_parts) && matches!(
                resolve_mode(overrides, &m.id),
                MountMode::Auto,
            ) && list_contains(&m.subdirs, &all_parts[k]) {
                layers.push(copy_bytes(&m.content_path));
            }
            proof {
                assert(modules@.take(j + 1).drop_last() =~= modules@.take(j as int));
                assert(modules@.take(j + 1).last() == modules@[j as int]);
                assert(byte_views(layers@) =~= plan_layers(
                    modules@.take(j + 1),
                    overrides@,
                    parts,
                    parts[k as int],
                ));
            }
            j = j + 1;
        }
        proof {
            assert(modules@.take(modules@.len() as int) =~= modules@);
        }
        plans.push(PartitionPlan { partition: copy_bytes(&all_parts[k]), layers });
        k = k + 1;
    }

    let mut magic: Vec<Vec<u8>> = Vec::new();
    let mut j: usize = 0;
    proof {
        assert(modules@.take(0) =~= Seq::<ModuleScan>::empty());
        assert(byte_views(magic@) =~= magic_list(modules@.take(0), overrides@, parts));
    }
    while j < modules.len()
        invariant
            j <= modules@.len(),
            parts == byte_views(all_parts@),
            byte_views(magic@) == magic_list(modules@.take(j as int), overrides@, parts),
        decreases modules.len() - j,
    {
        let m = &modules[j];
        if module_eligible(m, &all_parts) && matches!(
            resolve_mode(overrides, &m.id),
            MountMode::Magic,
        ) {
            magic.push(copy_bytes(&m.content_path));
        }
        proof {
            assert(modules@.take(j + 1).drop_last() =~= modules@.take(j as int));
            assert(modules@.take(j + 1).last() == modules@[j as int]);
            assert(byte_views(magic@) =~= magic_list(modules@.take(j + 1), overrides@, parts));
        }
        j = j + 1;
    }
    proof {
        assert(modules@.take(modules@.len() as int) =~= modules@);
    }
    (plans, magic)
}

/// Every layer of a plan is the content path of some module that is in
/// that plan.
pub proof fn lemma_plan_layers_members(
    mods: Seq<ModuleScan>,
    overrides: Seq<ModeOverride>,
    partitions: Seq<Seq<u8>>,
    part: Seq<u8>,
    x: Seq<u8>,
)
    requires
        plan_layers(mods, overrides, partitions, part).contains(x),
    ensures
        exists|j: int|
            0 <= j < mods.len() && in_plan(#[trigger] mods[j], overrides, partitions, part)
                && mods[j].content_path@ == x,
    decreases mods.len(),
{
    if mods.len() > 0 {
        let prev = plan_layers(mods.drop_last(), overrides, partitions, part);
        if in_plan(mods.last(), overrides, partitions, part) && x == mods.last().content_path@ {
            assert(in_plan(mods[mods.len() - 1], overrides, partitions, part));
        } else {
            assert(prev.contains(x));
            lemma_plan_layers_members(mods.drop_last(), overrides, partitions, part, x);
            let j = choose|j: int|
                0 <= j < mods.drop_last().len() && in_plan(
                    #[trigger] mods.drop_last()[j],
                    overrides,
                    partitions,
                    part,
                ) && mods.drop_last()[j].content_path@ == x;
            assert(mods[j] == mods.drop_last()[j]);
            assert(in_plan(mods[j], overrides, partitions, part));
        }
    }
}

/// A module in `Magic` mode never appears in any partition's layer list,
/// as long as no two scanned modules share a content path.
pub proof fn lemma_magic_never_layered(
    mods: Seq<ModuleScan>,
    overrides: Seq<ModeOverride>,
    partitions: Seq<Seq<u8>>,
    part: Seq<u8>,
    i: int,
)
    requires
        0 <= i < mods.len(),
        resolved_mode(overrides, mods[i].id@) == MountMode::Magic,
        forall|a: int, b: int|
            0 <= a < b < mods.len() ==> (#[trigger] mods[a]).content_path@ != (
            #[trigger] mods[b]).content_path@,
    ensures
        !plan_layers(mods, overrides, partitions, part).contains(mods[i].content_path@),
{
    if plan_layers(mods, overrides, partitions, part).contains(mods[i].content_path@) {
        lemma_plan_layers_members(mods, overrides, partitions, part, mods[i].content_path@);
        let j = choose|j: int|
            0 <= j < mods.len() && in_plan(#[trigger] mods[j], overrides, partitions, part)
                && mods[j].content_path@ == mods[i].content_path@;
        if j < i {
            assert(mods[j].content_path@ != mods[i].content_path@);
        } else if j > i {
            assert(mods[i].content_path@ != mods[j].content_path@);
        }
        assert(j == i);
        assert(resolved_mode(overrides, mods[i].id@) == MountMode::Auto);
    }
}

/// Overlay layer order is discovery order: a later-discovered module only
/// ever appends to a partition's layer list, so the layers of the earlier
/// modules stand unchanged, in their order, before it. With `plan_layers`
/// a function of the scan alone, repeated runs over an identical listing
/// give identical plans.
pub proof fn lemma_plan_order(
    mods: Seq<ModuleScan>,
    overrides: Seq<ModeOverride>,
    partitions: Seq<Seq<u8>>,
    part: Seq<u8>,
    m: ModuleScan,
)
    ensures
        plan_layers(mods.push(m), overrides, partitions, part) == plan_layers(
            mods,
            overrides,
            partitions,
            part,
        ) + if in_plan(m, overrides, partitions, part) {
            seq![m.content_path@]
        } else {
            Seq::<Seq<u8>>::empty()
        },
{
    assert(mods.push(m).drop_last() =~= mods);
    assert(mods.push(m).last() == m);
}

/// Folds the modules of a failed partition into the magic set: each layer
/// not yet present is appended, in order; the earlier entries stand
/// unchanged.
pub fn magic_fallback(magic: &mut Vec<Vec<u8>>, failed_layers: &Vec<Vec<u8>>)
    ensures
        forall|y: Seq<u8>|
            has_bytes(final(magic)@, y) <==> (has_bytes(old(magic)@, y) || has_bytes(
                failed_layers@,
                y,
            )),
        final(magic)@.len() >= old(magic)@.len(),
        forall|q: int| 0 <= q < old(magic)@.len() ==> final(magic)@[q] == old(magic)@[q],
{
    let mut i: usize = 0;
    while i < failed_layers.len()
        invariant
            i <= failed_layers@.len(),
            magic@.len() >= old(magic)@.len(),
            forall|q: int| 0 <= q < old(magic)@.len() ==> magic@[q] == old(magic)@[q],
            forall|y: Seq<u8>|
                has_bytes(magic@, y) <==> (has_bytes(old(magic)@, y) || has_bytes(
                    failed_layers@.take(i as int),
                    y,
                )),
        decreases failed_layers.len() - i,
    {
        let ghost before = magic@;
        if !list_contains(magic, &failed_layers[i]) {
            magic.push(copy_bytes(&failed_layers[i]));
            proof {
                assert forall|y: Seq<u8>| #[trigger] has_bytes(magic@, y) implies (has_bytes(
                    before,
                    y,
                ) || y == failed_layers@[i as int]@) by {
                    let q = choose|q: int| 0 <= q < magic@.len() && magic@[q]@ == y;
                    if q < before.len() {
                        assert(before[q]@ == y);
                    }
                };
                assert(magic@[before.len() as int]@ == failed_layers@[i as int]@);
                assert forall|y: Seq<u8>| has_bytes(before, y) implies #[trigger] has_bytes(
                    magic@,
                    y,
                ) by {
                    let q = choose|q: int| 0 <= q < before.len() && before[q]@ == y;
                    assert(magic@[q]@ == y);
                };
            }
        }
        proof {
            assert forall|y: Seq<u8>| #[trigger] has_bytes(failed_layers@.take(i + 1), y)
                implies (has_bytes(failed_layers@.take(i as int), y) || y == failed_layers@[
                i as int]@) by {
                let q = choose|q: int|
                    #![trigger failed_layers@.take(i + 1)[q]]
                    0 <= q < failed_layers@.take(i + 1).len() && failed_layers@.take(i + 1)[q]@
                        == y;
                if q < i {
                    assert(failed_layers@.take(i as int)[q]@ == y);
                }
            };
            assert forall|y: Seq<u8>| #[trigger] has_bytes(failed_layers@.take(i as int), y)
                implies has_bytes(failed_layers@.take(i + 1), y) by {
                let q = choose|q: int|
                    #![trigger failed_layers@.take(i as int)[q]]
                    0 <= q < failed_layers@.take(i as int).len() && failed_layers@.take(
                        i as int,
                    )[q]@ == y;
                assert(failed_layers@.take(i + 1)[q]@ == y);
            };
            assert(failed_layers@.take(i + 1)[i as int]@ == failed_layers@[i as int]@);
        }
        i = i + 1;
    }
    proof {
        assert(failed_layers@.take(failed_layers@.len() as int) =~= failed_layers@);
    }
}

/// The ids of the enabled modules under the metadata directory: each
/// directory that is neither reserved nor carries a marker file.
pub open spec fn module_enabled(m: ModuleScan) -> bool {
    m.is_dir && !reserved_id(m.id@) && !m.disable && !m.remove && !m.skip_mount
}

/// The ids of the enabled entries, in discovery order.
pub open spec fn enabled_ids(entries: Seq<ModuleScan>) -> Seq<Seq<u8>>
    decreases entries.len(),
{
    if entries.len() == 0 {
        Seq::empty()
    } else {
        enabled_ids(entries.drop_last()) + if module_enabled(entries.last()) {
            seq![entries.last().id@]
        } else {
            Seq::empty()
        }
    }
}

/// Filters the scanned metadata directory down to the enabled module ids.
pub fn scan_enabled_module_ids(entries: &Vec<ModuleScan>) -> (ids: Vec<Vec<u8>>)
    ensures
        byte_views(ids@) == enabled_ids(entries@),
{
    let mut ids: Vec<Vec<u8>> = Vec::new();
    let mut i: usize = 0;
    proof {
        assert(entries@.take(0) =~= Seq::<ModuleScan>::empty());
        assert(byte_views(ids@) =~= enabled_ids(entries@.take(0)));
    }
    while i < entries.len()
        invariant
            i <= entries@.len(),
            byte_views(ids@) == enabled_ids(entries@.take(i as int)),
        decreases entries.len() - i,
    {
        let m = &entries[i];
        if m.is_dir && !m.disable && !m.remove && !m.skip_mount && !is_reserved_id(&m.id) {
            ids.push(copy_bytes(&m.id));
        }
        proof {
            assert(entries@.take(i + 1).drop_last() =~= entries@.take(i as int));
            assert(entries@.take(i + 1).last() == entries@[i as int]);
            assert(byte_views(ids@) =~= enabled_ids(entries@.take(i + 1)));
        }
        i = i + 1;
    }
    proof {
        assert(entries@.take(entries@.len() as int) =~= entries@);
    }
    ids
}

/// An enabled source module is synced only when it carries content for
/// some builtin partition.
pub open spec fn sync_wanted(m: ModuleScan) -> bool {
    module_enabled(m) && has_any_partition(m.subdirs@, builtin_partition_names())
}

/// The ids to sync, in discovery order.
pub open spec fn sync_ids(entries: Seq<ModuleScan>) -> Seq<Seq<u8>>
    decreases entries.len(),
{
    if entries.len() == 0 {
        Seq::empty()
    } else {
        sync_ids(entries.drop_last()) + if sync_wanted(entries.last()) {
            seq![entries.last().id@]
        } else {
            Seq::empty()
        }
    }
}

/// Selects which enabled modules are synced into working storage: those
/// with content under some builtin partition. The copying itself happens
/// outside; this is the decision.
pub fn sync_active_modules(entries: &Vec<ModuleScan>) -> (ids: Vec<Vec<u8>>)
    ensures
        byte_views(ids@) == sync_ids(entries@),
{
    let builtin = builtin_partitions();
    let mut ids: Vec<Vec<u8>> = Vec::new();
    let mut i: usize = 0;
    proof {
        assert(entries@.take(0) =~= Seq::<ModuleScan>::empty());
        assert(byte_views(ids@) =~= sync_ids(entries@.take(0)));
    }
    while i < entries.len()
        invariant
            i <= entries@.len(),
            byte_views(builtin@) == builtin_partition_names(),
            byte_views(ids@) == sync_ids(entries@.take(i as int)),
        decreases entries.len() - i,
    {
        let m = &entries[i];
        if m.is_dir && !m.disable && !m.remove && !m.skip_mount && !is_reserved_id(&m.id) {
            let mut p: usize = 0;
            let mut found = false;
            while p < builtin.len()
                invariant
                    p <= builtin@.len(),
                    byte_views(builtin@) == builtin_partition_names(),
                    found ==> has_any_partition(m.subdirs@, builtin_partition_names()),
                    !found ==> forall|q: int|
                        0 <= q < p ==> !has_bytes(m.subdirs@, builtin_partition_names()[q]),
                decreases builtin.len() - p,
            {
                if list_contains(&m.subdirs, &builtin[p]) {
                    proof {
                        assert(has_bytes(m.subdirs@, builtin_partition_names()[p as int]));
                    }
                    found = true;
                }
                p = p + 1;
            }
            if found {
                ids.push(copy_bytes(&m.id));
            }
        }
        proof {
            assert(entries@.take(i + 1).drop_last() =~= entries@.take(i as int));
            assert(entries@.take(i + 1).last() == entries@[i as int]);
            assert(byte_views(ids@) =~= sync_ids(entries@.take(i + 1)));
        }
        i = i + 1;
    }
    proof {
        assert(entries@.take(entries@.len() as int) =~= entries@);
    }
    ids
}

/// The newline separator of property files.
pub open spec fn prop_nl() -> u8 {
    10
}

/// The line names `key`: it starts with the key followed by `=`.
pub open spec fn line_matches(line: Seq<u8>, key: Seq<u8>) -> bool {
    line.len() > key.len() && line.take(key.len() as int) == key && line[key.len() as int] == 61
}

/// The value of `key` in a property file: the remainder of the first line
/// that starts with `key=`, or nothing when no line does.
pub open spec fn prop_value(content: Seq<u8>, key: Seq<u8>) -> Option<Seq<u8>>
    decreases content.len(),
{
    let n = crate::bytes::find_byte(content, prop_nl());
    let line = content.take(n as int);
    if line_matches(line, key) {
        Option::Some(line.skip(key.len() + 1 as int))
    } else if n >= content.len() {
        Option::None
    } else {
        prop_value(content.skip(n + 1 as int), key)
    }
}

/// Copies `content[start..end]`.
fn copy_range(content: &Vec<u8>, start: usize, end: usize) -> (r: Vec<u8>)
    requires
        start <= end <= content@.len(),
    ensures
        r@ == content@.subrange(start as int, end as int),
{
    let mut r: Vec<u8> = Vec::new();
    let mut i: usize = start;
    while i < end
        invariant
            start <= i <= end <= content@.len(),
            r@ =~= content@.subrange(start as int, i as int),
        decreases end - i,
    {
        r.push(content[i]);
        i = i + 1;
    }
    r
}

/// Reads a property like `name=Foo` from the bytes of a `module.prop`
/// file: the value of the first line that starts with the key and an
/// equals sign.
pub fn read_prop(content: &Vec<u8>, key: &Vec<u8>) -> (r: Option<Vec<u8>>)
    ensures
        r is Some <==> prop_value(content@, key@) is Some,
        r matches Some(v) ==> prop_value(content@, key@) == Option::Some(v@),
{
    let mut start: usize = 0;
    proof {
        assert(content@.skip(0) =~= content@);
    }
    loop
        invariant
            start <= content@.len(),
            prop_value(content@, key@) == prop_value(content@.skip(start as int), key@),
        decreases content@.len() - start,
    {
        let ghost tail = content@.skip(start as int);
        // find the end of the current line
        let mut end: usize = start;
        while end < content.len() && content[end] != 10
            invariant
                start <= end <= content@.len(),
                forall|k: int| start <= k < end ==> content@[k] != 10,
            decreases content.len() - end,
        {
            end = end + 1;
        }
        proof {
            assert forall|k: int| 0 <= k < end - start implies tail[k] != prop_nl() by {
                assert(content@[start + k] != 10);
            };
            if end < content@.len() {
                assert(tail[end - start] == content@[end as int]);
            }
            crate::bytes::lemma_find_byte_at(tail, prop_nl(), end - start);
        }
        let line = copy_range(content, start, end);
        proof {
            assert(line@ =~= tail.take((end - start) as int));
        }
        if line.len() > key.len() && crate::bytes::starts_with(&line, key) && line[key.len()]
            == 61 {
            let value = copy_range(&line, key.len() + 1, line.len());
            proof {
                assert(line_matches(line@, key@));
                assert(value@ =~= line@.skip(key@.len() + 1 as int));
            }
            return Some(value);
        }
        proof {
            assert(!line_matches(line@, key@));
        }
        if end == content.len() {
            proof {
                assert(crate::bytes::find_byte(tail, prop_nl()) >= tail.len());
            }
            return None;
        }
        proof {
            assert(tail.skip((end - start) + 1) =~= content@.skip(end + 1));
        }
        start = end + 1;
    }
}

} // verus!
