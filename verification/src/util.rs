//! Small helpers around the engine: the randomized working mount point,
//! the kernel-extension image selection, and the HTML escaping of report
//! fragments.

use vstd::prelude::*;

verus! {

/// Is `b` an ASCII letter or digit?
pub open spec fn is_ascii_alphanumeric_byte(b: u8) -> bool {
    (48 <= b <= 57) || (65 <= b <= 90) || (97 <= b <= 122)
}

/// Relies on `fastrand::alphanumeric`: it draws one character from the
/// ASCII letters and digits, so the result always fits in one byte of
/// that class. Nothing else is assumed of the draw.
#[verifier::external_body]
fn random_alphanumeric_byte() -> (b: u8)
    ensures
        is_ascii_alphanumeric_byte(b),
{
    fastrand::alphanumeric() as u8
}

/// The `/mnt/` prefix of the working mount point.
pub open spec fn mnt_prefix() -> Seq<u8> {
    seq![47u8, 109u8, 110u8, 116u8, 47u8]
}

/// Picks a fresh working mount point under `/mnt`: the fixed prefix
/// followed by ten random ASCII letters or digits.
pub fn get_mnt() -> (r: Vec<u8>)
    ensures
        r@.len() == mnt_prefix().len() + 10,
        r@.take(mnt_prefix().len() as int) == mnt_prefix(),
        forall|i: int|
            mnt_prefix().len() <= i < r@.len() ==> is_ascii_alphanumeric_byte(r@[i]),
{
    let mut r: Vec<u8> = Vec::new();
    r.push(47);
    r.push(109);
    r.push(110);
    r.push(116);
    r.push(47);
    proof {
        assert(r@ =~= mnt_prefix());
    }
    let mut i: usize = 0;
    while i < 10
        invariant
            i <= 10,
            r@.len() == mnt_prefix().len() + i,
            r@.take(mnt_prefix().len() as int) =~= mnt_prefix(),
            forall|k: int|
                mnt_prefix().len() <= k < r@.len() ==> is_ascii_alphanumeric_byte(r@[k]),
        decreases 10 - i,
    {
        r.push(random_alphanumeric_byte());
        i = i + 1;
    }
    r
}

/// The replacement of one byte in an HTML context: the five
/// metacharacters become entities, every other byte stands as it is.
pub open spec fn escape_byte(b: u8) -> Seq<u8> {
    if b == 38 {
        seq![38u8, 97u8, 109u8, 112u8, 59u8]
    } else if b == 60 {
        seq![38u8, 108u8, 116u8, 59u8]
    } else if b == 62 {
        seq![38u8, 103u8, 116u8, 59u8]
    } else if b == 34 {
        seq![38u8, 113u8, 117u8, 111u8, 116u8, 59u8]
    } else if b == 39 {
        seq![38u8, 35u8, 51u8, 57u8, 59u8]
    } else {
        seq![b]
    }
}

/// The input with every byte replaced by its HTML escape.
pub open spec fn escaped(s: Seq<u8>) -> Seq<u8>
    decreases s.len(),
{
    if s.len() == 0 {
        Seq::empty()
    } else {
        escaped(s.drop_last()) + escape_byte(s.last())
    }
}

/// Escapes the HTML metacharacters of a text fragment.
pub fn escape_html(input: &Vec<u8>) -> (r: Vec<u8>)
    ensures
        r@ == escaped(input@),
{
    let mut r: Vec<u8> = Vec::new();
    let mut i: usize = 0;
    proof {
        assert(input@.take(0) =~= Seq::<u8>::empty());
        assert(r@ =~= escaped(input@.take(0)));
    }
    while i < input.len()
        invariant
            i <= input@.len(),
            r@ == escaped(input@.take(i as int)),
        decreases input.len() - i,
    {
        let b = input[i];
        let ghost before = r@;
        if b == 38 {
            r.push(38);
            r.push(97);
            r.push(109);
            r.push(112);
            r.push(59);
        } else if b == 60 {
            r.push(38);
            r.push(108);
            r.push(116);
            r.push(59);
        } else if b == 62 {
            r.push(38);
            r.push(103);
            r.push(116);
            r.push(59);
        } else if b == 34 {
            r.push(38);
            r.push(113);
            r.push(117);
            r.push(111);
            r.push(116);
            r.push(59);
        } else if b == 39 {
            r.push(38);
            r.push(35);
            r.push(51);
            r.push(57);
            r.push(59);
        } else {
            r.push(b);
        }
        proof {
            assert(input@.take(i + 1).drop_last() =~= input@.take(i as int));
            assert(input@.take(i + 1).last() == input@[i as int]);
            assert(r@ =~= before + escape_byte(input@[i as int]));
            assert(r@ =~= escaped(input@.take(i + 1)));
        }
        i = i + 1;
    }
    proof {
        assert(input@.take(input@.len() as int) =~= input@);
    }
    r
}

/// `names[i]` matches both the kernel pattern and the release pattern.
pub open spec fn lkm_strict_match(names: Seq<Vec<u8>>, i: int, kernel: Seq<u8>, release: Seq<u8>) -> bool {
    crate::bytes::has_sub(names[i]@, kernel) && crate::bytes::has_sub(names[i]@, release)
}

/// `names[i]` matches the kernel pattern alone.
pub open spec fn lkm_loose_match(names: Seq<Vec<u8>>, i: int, kernel: Seq<u8>) -> bool {
    crate::bytes::has_sub(names[i]@, kernel)
}

/// Selects the kernel-extension image to load: among the candidate file
/// names, the first whose name holds both the kernel version (such as
/// `5.10`) and, when one is known, the release pattern (such as
/// `android12`); else the first that holds the kernel version alone; else
/// none. `have_release` says whether a release pattern is known at all.
pub fn select_lkm(
    names: &Vec<Vec<u8>>,
    kernel: &Vec<u8>,
    release: &Vec<u8>,
    have_release: bool,
) -> (r: Option<usize>)
    ensures
        r matches Some(i) ==> i < names@.len(),
        (have_release && exists|j: int|
            0 <= j < names@.len() && lkm_strict_match(names@, j, kernel@, release@)) ==> (
        r matches Some(i) && lkm_strict_match(names@, i as int, kernel@, release@) && forall|
            j: int,
        | 0 <= j < i ==> !lkm_strict_match(names@, j, kernel@, release@)),
        !(have_release && exists|j: int|
            0 <= j < names@.len() && lkm_strict_match(names@, j, kernel@, release@)) ==> (
        (exists|j: int| 0 <= j < names@.len() && lkm_loose_match(names@, j, kernel@)) ==> (
        r matches Some(i) && lkm_loose_match(names@, i as int, kernel@) && forall|j: int|
            0 <= j < i ==> !lkm_loose_match(names@, j, kernel@))),
        !(have_release && exists|j: int|
            0 <= j < names@.len() && lkm_strict_match(names@, j, kernel@, release@)) && !(exists|
            j: int,
        | 0 <= j < names@.len() && lkm_loose_match(names@, j, kernel@)) ==> r is None,
{
    if have_release {
        let mut i: usize = 0;
        while i < names.len()
            invariant
                have_release,
                i <= names@.len(),
                forall|j: int| 0 <= j < i ==> !lkm_strict_match(names@, j, kernel@, release@),
            decreases names.len() - i,
        {
            if crate::bytes::contains_bytes(&names[i], kernel) && crate::bytes::contains_bytes(
                &names[i],
                release,
            ) {
                proof {
                    assert(lkm_strict_match(names@, i as int, kernel@, release@));
                }
                return Some(i);
            }
            i = i + 1;
        }
    }
    let mut i: usize = 0;
    while i < names.len()
        invariant
            i <= names@.len(),
            forall|j: int| 0 <= j < i ==> !lkm_loose_match(names@, j, kernel@),
            have_release ==> forall|j: int|
                0 <= j < names@.len() ==> !lkm_strict_match(names@, j, kernel@, release@),
        decreases names.len() - i,
    {
        if crate::bytes::contains_bytes(&names[i], kernel) {
            proof {
                assert(lkm_loose_match(names@, i as int, kernel@));
            }
            return Some(i);
        }
        i = i + 1;
    }
    None
}

} // verus!
