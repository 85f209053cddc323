//! Byte-string helpers: paths and identifiers are carried as `Vec<u8>`
//! throughout the crate, and compared in lexicographic byte order.

use vstd::prelude::*;

verus! {

/// Lexicographic strict order on byte sequences: `a` comes before `b`.
pub open spec fn lex_lt(a: Seq<u8>, b: Seq<u8>) -> bool
    decreases a.len(),
{
    if b.len() == 0 {
        false
    } else if a.len() == 0 {
        true
    } else if a[0] < b[0] {
        true
    } else if a[0] > b[0] {
        false
    } else {
        lex_lt(a.skip(1), b.skip(1))
    }
}

/// `p` is a prefix of `a`.
pub open spec fn is_prefix(a: Seq<u8>, p: Seq<u8>) -> bool {
    p.len() <= a.len() && a.take(p.len() as int) == p
}

/// Dropping equal heads does not change the order of the tails.
proof fn lemma_lex_lt_step(a: Seq<u8>, b: Seq<u8>, i: int)
    requires
        0 <= i < a.len(),
        i < b.len(),
        a[i] == b[i],
    ensures
        lex_lt(a.skip(i), b.skip(i)) == lex_lt(a.skip(i + 1), b.skip(i + 1)),
{
    assert(a.skip(i).skip(1) =~= a.skip(i + 1));
    assert(b.skip(i).skip(1) =~= b.skip(i + 1));
    assert(a.skip(i)[0] == a[i]);
    assert(b.skip(i)[0] == b[i]);
}

/// The order is transitive.
pub proof fn lemma_lex_trans(a: Seq<u8>, b: Seq<u8>, c: Seq<u8>)
    requires
        lex_lt(a, b),
        lex_lt(b, c),
    ensures
        lex_lt(a, c),
    decreases a.len(),
{
    if a.len() > 0 && b.len() > 0 && c.len() > 0 && a[0] == b[0] && b[0] == c[0] {
        lemma_lex_trans(a.skip(1), b.skip(1), c.skip(1));
    }
}

/// Two sequences that precede each other in neither direction are equal.
pub proof fn lemma_lex_connex(a: Seq<u8>, b: Seq<u8>)
    requires
        !lex_lt(a, b),
        !lex_lt(b, a),
    ensures
        a == b,
    decreases a.len(),
{
    if a.len() > 0 && b.len() > 0 && a[0] == b[0] {
        lemma_lex_connex(a.skip(1), b.skip(1));
        assert(a =~= seq![a[0]] + a.skip(1));
        assert(b =~= seq![b[0]] + b.skip(1));
    }
}

/// Compares two byte strings in lexicographic order.
pub fn bytes_lt(a: &Vec<u8>, b: &Vec<u8>) -> (r: bool)
    ensures
        r == lex_lt(a@, b@),
{
    let mut i: usize = 0;
    proof {
        assert(a@.skip(0) =~= a@);
        assert(b@.skip(0) =~= b@);
    }
    while i < a.len() && i < b.len()
        invariant
            i <= a.len(),
            i <= b.len(),
            lex_lt(a@, b@) == lex_lt(a@.skip(i as int), b@.skip(i as int)),
        decreases a.len() - i,
    {
        if a[i] != b[i] {
            proof {
                assert(a@.skip(i as int)[0] == a@[i as int]);
                assert(b@.skip(i as int)[0] == b@[i as int]);
            }
            return a[i] < b[i];
        }
        proof {
            lemma_lex_lt_step(a@, b@, i as int);
        }
        i = i + 1;
    }
    proof {
        assert(a@.skip(i as int).len() == a@.len() - i);
        assert(b@.skip(i as int).len() == b@.len() - i);
    }
    a.len() < b.len()
}

/// Tests two byte strings for equality.
pub fn bytes_eq(a: &Vec<u8>, b: &Vec<u8>) -> (r: bool)
    ensures
        r == (a@ == b@),
{
    if a.len() != b.len() {
        return false;
    }
    let mut i: usize = 0;
    while i < a.len()
        invariant
            i <= a.len(),
            a@.len() == b@.len(),
            forall|k: int| 0 <= k < i ==> a@[k] == b@[k],
        decreases a.len() - i,
    {
        if a[i] != b[i] {
            return false;
        }
        i = i + 1;
    }
    proof {
        assert(a@ =~= b@);
    }
    true
}

/// Copies a byte string.
pub fn copy_bytes(a: &Vec<u8>) -> (r: Vec<u8>)
    ensures
        r@ == a@,
{
    let mut r: Vec<u8> = Vec::new();
    let mut i: usize = 0;
    while i < a.len()
        invariant
            i <= a.len(),
            r@ =~= a@.take(i as int),
        decreases a.len() - i,
    {
        r.push(a[i]);
        i = i + 1;
    }
    proof {
        assert(a@.take(a@.len() as int) =~= a@);
    }
    r
}

/// Appends `src` to the end of `dst`.
pub fn append_bytes(dst: &mut Vec<u8>, src: &Vec<u8>)
    ensures
        final(dst)@ == old(dst)@ + src@,
{
    let mut i: usize = 0;
    while i < src.len()
        invariant
            i <= src.len(),
            dst@ =~= old(dst)@ + src@.take(i as int),
        decreases src.len() - i,
    {
        dst.push(src[i]);
        i = i + 1;
    }
    proof {
        assert(src@.take(src@.len() as int) =~= src@);
    }
}

/// Does `a` start with `p`?
pub fn starts_with(a: &Vec<u8>, p: &Vec<u8>) -> (r: bool)
    ensures
        r == is_prefix(a@, p@),
{
    if p.len() > a.len() {
        return false;
    }
    let mut i: usize = 0;
    while i < p.len()
        invariant
            i <= p.len(),
            p@.len() <= a@.len(),
            forall|k: int| 0 <= k < i ==> a@[k] == p@[k],
        decreases p.len() - i,
    {
        if a[i] != p[i] {
            proof {
                assert(a@.take(p@.len() as int)[i as int] != p@[i as int]);
            }
            return false;
        }
        i = i + 1;
    }
    proof {
        assert(a@.take(p@.len() as int) =~= p@);
    }
    true
}

/// Membership of a byte string in a list of byte strings.
pub open spec fn has_bytes(list: Seq<Vec<u8>>, x: Seq<u8>) -> bool {
    exists|i: int| 0 <= i < list.len() && list[i]@ == x
}

/// Does `list` contain the byte string `x`?
pub fn list_contains(list: &Vec<Vec<u8>>, x: &Vec<u8>) -> (r: bool)
    ensures
        r == has_bytes(list@, x@),
{
    let mut i: usize = 0;
    while i < list.len()
        invariant
            i <= list.len(),
            forall|k: int| 0 <= k < i ==> list@[k]@ != x@,
        decreases list.len() - i,
    {
        if bytes_eq(&list[i], x) {
            return true;
        }
        i = i + 1;
    }
    false
}

/// The index of the first occurrence of `b` in `s`, or the length when
/// `b` does not occur.
pub open spec fn find_byte(s: Seq<u8>, b: u8) -> nat
    decreases s.len(),
{
    if s.len() == 0 {
        0
    } else if s[0] == b {
        0
    } else {
        1 + find_byte(s.skip(1), b)
    }
}

/// `find_byte` lands on the first occurrence: nothing before it matches,
/// and it matches unless it is the length.
pub proof fn lemma_find_byte(s: Seq<u8>, b: u8)
    ensures
        find_byte(s, b) <= s.len(),
        forall|k: int| 0 <= k < find_byte(s, b) ==> s[k] != b,
        find_byte(s, b) < s.len() ==> s[find_byte(s, b) as int] == b,
    decreases s.len(),
{
    if s.len() > 0 && s[0] != b {
        lemma_find_byte(s.skip(1), b);
        assert forall|k: int| 0 <= k < find_byte(s, b) implies s[k] != b by {
            if k > 0 {
                assert(s.skip(1)[k - 1] != b);
            }
        };
        if find_byte(s, b) < s.len() {
            assert(s.skip(1)[find_byte(s.skip(1), b) as int] == b);
        }
    }
}

/// A scan that saw no `b` before `m`, and `b` at `m` unless `m` is the
/// length, pins `find_byte` down.
pub proof fn lemma_find_byte_at(s: Seq<u8>, b: u8, m: int)
    requires
        0 <= m <= s.len(),
        forall|k: int| 0 <= k < m ==> s[k] != b,
        m < s.len() ==> s[m] == b,
    ensures
        find_byte(s, b) == m,
    decreases s.len(),
{
    if s.len() > 0 && m > 0 {
        assert forall|k: int| 0 <= k < m - 1 implies s.skip(1)[k] != b by {
            assert(s[k + 1] != b);
        };
        assert(m - 1 < s.skip(1).len() ==> s.skip(1)[m - 1] == b);
        lemma_find_byte_at(s.skip(1), b, m - 1);
    }
}

/// `sub` occurs contiguously somewhere in `s`.
pub open spec fn has_sub(s: Seq<u8>, sub: Seq<u8>) -> bool {
    exists|i: int|
        #![trigger s.subrange(i, i + sub.len() as int)]
        0 <= i && i + sub.len() <= s.len() && s.subrange(i, i + sub.len() as int) == sub
}

/// Does `s` contain `sub` as a contiguous substring?
pub fn contains_bytes(s: &Vec<u8>, sub: &Vec<u8>) -> (r: bool)
    ensures
        r == has_sub(s@, sub@),
{
    if sub.len() > s.len() {
        proof {
            assert(!has_sub(s@, sub@));
        }
        return false;
    }
    if sub.len() == 0 {
        proof {
            assert(s@.subrange(0, 0 + sub@.len() as int) =~= sub@);
        }
        return true;
    }
    let mut i: usize = 0;
    while i <= s.len() - sub.len()
        invariant
            s@.len() <= usize::MAX,
            0 < sub@.len() <= s@.len(),
            i <= s@.len() - sub@.len() + 1,
            forall|p: int|
                #![trigger s@.subrange(p, p + sub@.len() as int)]
                0 <= p < i ==> s@.subrange(p, p + sub@.len() as int) != sub@,
        decreases s.len() - i,
    {
        let mut j: usize = 0;
        let mut matched = true;
        while j < sub.len()
            invariant
                s@.len() <= usize::MAX,
                i + sub@.len() <= s@.len(),
                j <= sub@.len(),
                matched ==> forall|k: int| 0 <= k < j ==> s@[i + k] == #[trigger] sub@[k],
                !matched ==> s@.subrange(i as int, i + sub@.len() as int) != sub@,
            decreases sub.len() - j,
        {
            if s[i + j] != sub[j] {
                proof {
                    assert(s@.subrange(i as int, i + sub@.len() as int)[j as int] != sub@[
                        j as int]);
                }
                matched = false;
                j = sub.len();
            } else {
                j = j + 1;
            }
        }
        if matched {
            proof {
                assert(s@.subrange(i as int, i + sub@.len() as int) =~= sub@);
            }
            return true;
        }
        i = i + 1;
    }
    proof {
        assert(!has_sub(s@, sub@)) by {
            if has_sub(s@, sub@) {
                let p = choose|p: int|
                    #![trigger s@.subrange(p, p + sub@.len() as int)]
                    0 <= p && p + sub@.len() <= s@.len() && s@.subrange(p, p + sub@.len() as int)
                        == sub@;
                assert(s@.subrange(p, p + sub@.len() as int) != sub@);
            }
        }
    }
    false
}

} // verus!
