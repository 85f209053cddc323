//! The fixed-buffer control protocol of the file-hiding driver.
//!
//! Every verb carries its argument in a fixed-size, NUL-padded buffer: names
//! in 256 bytes, `src|target` pairs in 512 bytes, and metadata spoofs in a
//! fixed-layout record whose byte size is pinned by [`SPOOF_ARGS_SIZE`].
//! Oversized input is rejected here, before any request reaches the device.

use vstd::prelude::*;

use crate::ioc::{ioc, ioc_code, IOC_WRITE};

verus! {

/// Size of the single-name buffer.
pub const NAME_BUF_LEN: usize = 256;

/// Size of the two-part `src|target` buffer.
pub const PAIR_BUF_LEN: usize = 512;

/// Wire size of the spoof record: 256-byte name, 32-bit uid and gid, 16-bit
/// mode, six bytes of alignment padding, and a 64-bit mtime. The driver
/// checks this exact size, so it is declared once and asserted against the
/// computed layout.
pub const SPOOF_ARGS_SIZE: usize = 256 + 4 + 4 + 2 + 8 + 6;

/// The type byte that identifies this driver's requests.
pub const CTL_MAGIC: u32 = 0x43;

/// Errors raised at the encoding boundary, before any request is issued.
#[derive(Clone, Copy, PartialEq, Eq, Structural, Debug)]
pub enum CtlError {
    NameTooLong,
    PayloadTooLong,
}

/// An encoded request: the packed ioctl opcode and the exact payload bytes
/// the driver will read.
#[derive(Debug, PartialEq)]
pub struct CtlRequest {
    pub opcode: u32,
    pub payload: Vec<u8>,
}

/// `s` extended with NUL bytes to length `n`.
pub open spec fn padded(s: Seq<u8>, n: int) -> Seq<u8> {
    s + Seq::new((n - s.len()) as nat, |i: int| 0u8)
}

/// A run of `n` NUL bytes.
pub open spec fn zeros(n: int) -> Seq<u8> {
    Seq::new(n as nat, |i: int| 0u8)
}

/// The little-endian bytes of a 16-bit integer.
pub open spec fn u16_le(x: u16) -> Seq<u8> {
    seq![(x & 0xff) as u8, ((x >> 8) & 0xff) as u8]
}

/// The little-endian bytes of a 32-bit integer.
pub open spec fn u32_le(x: u32) -> Seq<u8> {
    seq![
        (x & 0xff) as u8,
        ((x >> 8) & 0xff) as u8,
        ((x >> 16) & 0xff) as u8,
        ((x >> 24) & 0xff) as u8,
    ]
}

/// The little-endian bytes of a 64-bit integer.
pub open spec fn u64_le(x: u64) -> Seq<u8> {
    seq![
        (x & 0xff) as u8,
        ((x >> 8) & 0xff) as u8,
        ((x >> 16) & 0xff) as u8,
        ((x >> 24) & 0xff) as u8,
        ((x >> 32) & 0xff) as u8,
        ((x >> 40) & 0xff) as u8,
        ((x >> 48) & 0xff) as u8,
        ((x >> 56) & 0xff) as u8,
    ]
}

/// Copies `data` into a fresh buffer of length `n`, NUL-padded at the end.
fn pad_buffer(data: &Vec<u8>, n: usize) -> (r: Vec<u8>)
    requires
        data@.len() <= n,
    ensures
        r@ == padded(data@, n as int),
        r@.len() == n,
{
    let mut r = crate::bytes::copy_bytes(data);
    while r.len() < n
        invariant
            data@.len() <= r@.len() <= n,
            r@ =~= data@ + Seq::new((r@.len() - data@.len()) as nat, |i: int| 0u8),
        decreases n - r.len(),
    {
        r.push(0);
    }
    proof {
        assert(r@ =~= padded(data@, n as int));
    }
    r
}

/// Appends the little-endian bytes of a 16-bit integer.
fn push_u16_le(dst: &mut Vec<u8>, x: u16)
    ensures
        final(dst)@ == old(dst)@ + u16_le(x),
{
    proof {
        assert(x & 0xff < 256 && (x >> 8) & 0xff < 256) by (bit_vector);
    }
    dst.push((x & 0xff) as u8);
    dst.push(((x >> 8) & 0xff) as u8);
    proof {
        assert(dst@ =~= old(dst)@ + u16_le(x));
    }
}

/// Appends the little-endian bytes of a 32-bit integer.
fn push_u32_le(dst: &mut Vec<u8>, x: u32)
    ensures
        final(dst)@ == old(dst)@ + u32_le(x),
{
    proof {
        assert((x & 0xff) < 256 && ((x >> 8) & 0xff) < 256 && ((x >> 16) & 0xff) < 256 && ((x
            >> 24) & 0xff) < 256) by (bit_vector);
    }
    dst.push((x & 0xff) as u8);
    dst.push(((x >> 8) & 0xff) as u8);
    dst.push(((x >> 16) & 0xff) as u8);
    dst.push(((x >> 24) & 0xff) as u8);
    proof {
        assert(dst@ =~= old(dst)@ + u32_le(x));
    }
}

/// Appends the little-endian bytes of a 64-bit integer.
fn push_u64_le(dst: &mut Vec<u8>, x: u64)
    ensures
        final(dst)@ == old(dst)@ + u64_le(x),
{
    proof {
        assert((x & 0xff) < 256 && ((x >> 8) & 0xff) < 256 && ((x >> 16) & 0xff) < 256 && ((x
            >> 24) & 0xff) < 256 && ((x >> 32) & 0xff) < 256 && ((x >> 40) & 0xff) < 256 && ((x
            >> 48) & 0xff) < 256 && ((x >> 56) & 0xff) < 256) by (bit_vector);
    }
    dst.push((x & 0xff) as u8);
    dst.push(((x >> 8) & 0xff) as u8);
    dst.push(((x >> 16) & 0xff) as u8);
    dst.push(((x >> 24) & 0xff) as u8);
    dst.push(((x >> 32) & 0xff) as u8);
    dst.push(((x >> 40) & 0xff) as u8);
    dst.push(((x >> 48) & 0xff) as u8);
    dst.push(((x >> 56) & 0xff) as u8);
    proof {
        assert(dst@ =~= old(dst)@ + u64_le(x));
    }
}

/// The spoof record: the arguments of a metadata-spoofing request, with the
/// name already padded to its 256-byte buffer.
pub struct IoctlSpoofArgs {
    pub name: Vec<u8>,
    pub uid: u32,
    pub gid: u32,
    pub mode: u16,
    pub mtime: u64,
}

impl IoctlSpoofArgs {
    /// The name buffer holds exactly its fixed wire size.
    pub open spec fn wf(&self) -> bool {
        self.name@.len() == NAME_BUF_LEN
    }

    /// The wire bytes of the record: each field in little-endian order at its
    /// fixed offset, with the alignment padding before `mtime`.
    pub open spec fn wire(&self) -> Seq<u8> {
        self.name@ + u32_le(self.uid) + u32_le(self.gid) + u16_le(self.mode) + zeros(6) + u64_le(
            self.mtime,
        )
    }

    /// Builds the record from an unpadded name.
    pub fn new(name: &Vec<u8>, uid: u32, gid: u32, mode: u16, mtime: u64) -> (r: Result<
        IoctlSpoofArgs,
        CtlError,
    >)
        ensures
            name@.len() < NAME_BUF_LEN ==> (r matches Ok(a) && a.wf() && a.name@ == padded(
                name@,
                NAME_BUF_LEN as int,
            ) && a.uid == uid && a.gid == gid && a.mode == mode && a.mtime == mtime),
            name@.len() >= NAME_BUF_LEN ==> r == Err::<IoctlSpoofArgs, CtlError>(
                CtlError::NameTooLong,
            ),
    {
        if name.len() >= NAME_BUF_LEN {
            return Err(CtlError::NameTooLong);
        }
        Ok(IoctlSpoofArgs {
            name: pad_buffer(name, NAME_BUF_LEN),
            uid,
            gid,
            mode,
            mtime,
        })
    }

    /// Serializes the record to its wire bytes.
    pub fn encode(&self) -> (r: Vec<u8>)
        requires
            self.wf(),
        ensures
            r@ == self.wire(),
            r@.len() == SPOOF_ARGS_SIZE,
    {
        let mut r = crate::bytes::copy_bytes(&self.name);
        push_u32_le(&mut r, self.uid);
        push_u32_le(&mut r, self.gid);
        push_u16_le(&mut r, self.mode);
        let mut k: usize = 0;
        while k < 6
            invariant
                k <= 6,
                r@ =~= self.name@ + u32_le(self.uid) + u32_le(self.gid) + u16_le(self.mode)
                    + zeros(k as int),
            decreases 6 - k,
        {
            r.push(0);
            k = k + 1;
        }
        push_u64_le(&mut r, self.mtime);
        proof {
            assert(r@ =~= self.wire());
        }
        r
    }
}

/// Recomputes the spoof record's byte size from its field layout: the fields
/// up to `mode`, rounded up to the 8-byte alignment of `mtime`, then `mtime`
/// itself. The result must equal the declared wire size.
pub fn spoof_wire_size() -> (n: usize)
    ensures
        n == SPOOF_ARGS_SIZE,
{
    let fields: usize = NAME_BUF_LEN + 4 + 4 + 2;
    let aligned: usize = ((fields + 7) / 8) * 8;
    aligned + 8
}

/// Builds a 256-byte single-name request for the given sequence number.
fn name_request(name: &Vec<u8>, nr: u32) -> (r: Result<CtlRequest, CtlError>)
    requires
        nr < 0x100,
    ensures
        name@.len() < NAME_BUF_LEN ==> (r matches Ok(q) && q.opcode == ioc_code(
            IOC_WRITE,
            CTL_MAGIC,
            nr,
            NAME_BUF_LEN as u32,
        ) && q.payload@ == padded(name@, NAME_BUF_LEN as int)),
        name@.len() >= NAME_BUF_LEN ==> r == Err::<CtlRequest, CtlError>(CtlError::NameTooLong),
{
    if name.len() >= NAME_BUF_LEN {
        return Err(CtlError::NameTooLong);
    }
    Ok(CtlRequest { opcode: ioc(IOC_WRITE, CTL_MAGIC, nr, 256), payload: pad_buffer(
        name,
        NAME_BUF_LEN,
    ) })
}

/// The `|` separator between the two halves of a pair payload.
pub const PAIR_SEP: u8 = 124;

/// The `src|target` pair as it is laid into the 512-byte buffer.
pub open spec fn pair_payload(src: Seq<u8>, target: Seq<u8>) -> Seq<u8> {
    src + seq![PAIR_SEP] + target
}

/// Builds a 512-byte `src|target` request for the given sequence number.
fn pair_request(src: &Vec<u8>, target: &Vec<u8>, nr: u32) -> (r: Result<CtlRequest, CtlError>)
    requires
        nr < 0x100,
    ensures
        pair_payload(src@, target@).len() < PAIR_BUF_LEN ==> (r matches Ok(q) && q.opcode
            == ioc_code(IOC_WRITE, CTL_MAGIC, nr, PAIR_BUF_LEN as u32) && q.payload@ == padded(
            pair_payload(src@, target@),
            PAIR_BUF_LEN as int,
        )),
        pair_payload(src@, target@).len() >= PAIR_BUF_LEN ==> r == Err::<CtlRequest, CtlError>(CtlError::PayloadTooLong),
{
    if src.len() >= PAIR_BUF_LEN || target.len() >= PAIR_BUF_LEN || src.len() + 1 + target.len()
        >= PAIR_BUF_LEN {
        return Err(CtlError::PayloadTooLong);
    }
    let mut joined = crate::bytes::copy_bytes(src);
    joined.push(PAIR_SEP);
    crate::bytes::append_bytes(&mut joined, target);
    proof {
        assert(joined@ =~= pair_payload(src@, target@));
    }
    Ok(CtlRequest { opcode: ioc(IOC_WRITE, CTL_MAGIC, nr, 512), payload: pad_buffer(
        &joined,
        PAIR_BUF_LEN,
    ) })
}

/// The request that registers `name` as hidden. Rejects names that do not
/// fit the 256-byte buffer before any request is issued.
pub fn hide_request(name: &Vec<u8>) -> (r: Result<CtlRequest, CtlError>)
    ensures
        name@.len() < NAME_BUF_LEN ==> (r matches Ok(q) && q.opcode == ioc_code(
            IOC_WRITE,
            CTL_MAGIC,
            1,
            NAME_BUF_LEN as u32,
        ) && q.payload@ == padded(name@, NAME_BUF_LEN as int)),
        name@.len() >= NAME_BUF_LEN ==> r == Err::<CtlRequest, CtlError>(CtlError::NameTooLong),
{
    name_request(name, 1)
}

/// The request that removes `name` from the hidden set.
pub fn unhide_request(name: &Vec<u8>) -> (r: Result<CtlRequest, CtlError>)
    ensures
        name@.len() < NAME_BUF_LEN ==> (r matches Ok(q) && q.opcode == ioc_code(
            IOC_WRITE,
            CTL_MAGIC,
            2,
            NAME_BUF_LEN as u32,
        ) && q.payload@ == padded(name@, NAME_BUF_LEN as int)),
        name@.len() >= NAME_BUF_LEN ==> r == Err::<CtlRequest, CtlError>(CtlError::NameTooLong),
{
    name_request(name, 2)
}

/// The request that redirects `src` to `target`.
pub fn redirect_request(src: &Vec<u8>, target: &Vec<u8>) -> (r: Result<CtlRequest, CtlError>)
    ensures
        pair_payload(src@, target@).len() < PAIR_BUF_LEN ==> (r matches Ok(q) && q.opcode
            == ioc_code(IOC_WRITE, CTL_MAGIC, 4, PAIR_BUF_LEN as u32) && q.payload@ == padded(
            pair_payload(src@, target@),
            PAIR_BUF_LEN as int,
        )),
        pair_payload(src@, target@).len() >= PAIR_BUF_LEN ==> r == Err::<CtlRequest, CtlError>(CtlError::PayloadTooLong),
{
    pair_request(src, target, 4)
}

/// The request that removes the redirection of `src`.
pub fn unredirect_request(src: &Vec<u8>) -> (r: Result<CtlRequest, CtlError>)
    ensures
        src@.len() < NAME_BUF_LEN ==> (r matches Ok(q) && q.opcode == ioc_code(
            IOC_WRITE,
            CTL_MAGIC,
            5,
            NAME_BUF_LEN as u32,
        ) && q.payload@ == padded(src@, NAME_BUF_LEN as int)),
        src@.len() >= NAME_BUF_LEN ==> r == Err::<CtlRequest, CtlError>(CtlError::NameTooLong),
{
    name_request(src, 5)
}

/// The request that spoofs the metadata of `name`.
pub fn spoof_request(name: &Vec<u8>, uid: u32, gid: u32, mode: u16, mtime: u64) -> (r: Result<
    CtlRequest,
    CtlError,
>)
    ensures
        name@.len() < NAME_BUF_LEN ==> (r matches Ok(q) && q.opcode == ioc_code(
            IOC_WRITE,
            CTL_MAGIC,
            7,
            SPOOF_ARGS_SIZE as u32,
        ) && q.payload@ == padded(name@, NAME_BUF_LEN as int) + u32_le(uid) + u32_le(gid) + u16_le(
            mode,
        ) + zeros(6) + u64_le(mtime) && q.payload@.len() == SPOOF_ARGS_SIZE),
        name@.len() >= NAME_BUF_LEN ==> r == Err::<CtlRequest, CtlError>(CtlError::NameTooLong),
{
    let args = match IoctlSpoofArgs::new(name, uid, gid, mode, mtime) {
        Ok(a) => a,
        Err(e) => {
            return Err(e);
        },
    };
    Ok(CtlRequest { opcode: ioc(IOC_WRITE, CTL_MAGIC, 7, 280), payload: args.encode() })
}

/// The request that stops spoofing the metadata of `name`.
pub fn unspoof_request(name: &Vec<u8>) -> (r: Result<CtlRequest, CtlError>)
    ensures
        name@.len() < NAME_BUF_LEN ==> (r matches Ok(q) && q.opcode == ioc_code(
            IOC_WRITE,
            CTL_MAGIC,
            8,
            NAME_BUF_LEN as u32,
        ) && q.payload@ == padded(name@, NAME_BUF_LEN as int)),
        name@.len() >= NAME_BUF_LEN ==> r == Err::<CtlRequest, CtlError>(CtlError::NameTooLong),
{
    name_request(name, 8)
}

/// The request that merges `src` into `target`.
pub fn merge_request(src: &Vec<u8>, target: &Vec<u8>) -> (r: Result<CtlRequest, CtlError>)
    ensures
        pair_payload(src@, target@).len() < PAIR_BUF_LEN ==> (r matches Ok(q) && q.opcode
            == ioc_code(IOC_WRITE, CTL_MAGIC, 10, PAIR_BUF_LEN as u32) && q.payload@ == padded(
            pair_payload(src@, target@),
            PAIR_BUF_LEN as int,
        )),
        pair_payload(src@, target@).len() >= PAIR_BUF_LEN ==> r == Err::<CtlRequest, CtlError>(CtlError::PayloadTooLong),
{
    pair_request(src, target, 10)
}

/// The request that removes the merge rule of `src`.
pub fn unmerge_request(src: &Vec<u8>) -> (r: Result<CtlRequest, CtlError>)
    ensures
        src@.len() < NAME_BUF_LEN ==> (r matches Ok(q) && q.opcode == ioc_code(
            IOC_WRITE,
            CTL_MAGIC,
            11,
            NAME_BUF_LEN as u32,
        ) && q.payload@ == padded(src@, NAME_BUF_LEN as int)),
        src@.len() >= NAME_BUF_LEN ==> r == Err::<CtlRequest, CtlError>(CtlError::NameTooLong),
{
    name_request(src, 11)
}

/// The request that sets the trusted group id.
pub fn set_trust_request(gid: u32) -> (r: CtlRequest)
    ensures
        r.opcode == ioc_code(IOC_WRITE, CTL_MAGIC, 13, 4),
        r.payload@ == u32_le(gid),
{
    let mut payload: Vec<u8> = Vec::new();
    push_u32_le(&mut payload, gid);
    proof {
        assert(payload@ =~= u32_le(gid));
    }
    CtlRequest { opcode: ioc(IOC_WRITE, CTL_MAGIC, 13, 4), payload }
}

/// The name the driver reads from a NUL-padded buffer: the bytes before
/// the first NUL.
pub open spec fn buffer_name(buf: Seq<u8>) -> Seq<u8> {
    buf.take(crate::bytes::find_byte(buf, 0) as int)
}

/// Extracts the name a padded buffer carries.
pub fn decode_name(buf: &Vec<u8>) -> (r: Vec<u8>)
    ensures
        r@ == buffer_name(buf@),
{
    let mut end: usize = 0;
    while end < buf.len() && buf[end] != 0
        invariant
            end <= buf@.len(),
            forall|k: int| 0 <= k < end ==> buf@[k] != 0,
        decreases buf.len() - end,
    {
        end = end + 1;
    }
    proof {
        crate::bytes::lemma_find_byte_at(buf@, 0, end as int);
    }
    let mut r: Vec<u8> = Vec::new();
    let mut i: usize = 0;
    while i < end
        invariant
            i <= end <= buf@.len(),
            r@ =~= buf@.take(end as int).take(i as int),
        decreases end - i,
    {
        proof {
            assert(buf@.take(end as int)[i as int] == buf@[i as int]);
        }
        r.push(buf[i]);
        i = i + 1;
    }
    proof {
        assert(r@ =~= buf@.take(end as int));
    }
    r
}

/// Padding a name into its buffer and reading it back returns the name,
/// as long as the name itself holds no NUL byte and fits the buffer: the
/// driver sees exactly the name that was encoded.
pub proof fn lemma_name_round_trip(name: Seq<u8>)
    requires
        name.len() < NAME_BUF_LEN,
        forall|i: int| 0 <= i < name.len() ==> name[i] != 0,
    ensures
        buffer_name(padded(name, NAME_BUF_LEN as int)) == name,
{
    let buf = padded(name, NAME_BUF_LEN as int);
    assert forall|k: int| 0 <= k < name.len() implies buf[k] != 0 by {
        assert(buf[k] == name[k]);
    };
    assert(buf[name.len() as int] == 0);
    crate::bytes::lemma_find_byte_at(buf, 0, name.len() as int);
    assert(buf.take(name.len() as int) =~= name);
}

/// The set of byte strings held in `s`.
pub open spec fn set_of(s: Seq<Vec<u8>>) -> Set<Seq<u8>> {
    Set::new(|x: Seq<u8>| crate::bytes::has_bytes(s, x))
}

/// No two entries of `s` hold the same byte string.
pub open spec fn names_unique(s: Seq<Vec<u8>>) -> bool {
    forall|a: int, b: int| 0 <= a < b < s.len() ==> s[a]@ != s[b]@
}

/// `s` holds an entry mapping `k` to `v`.
pub open spec fn pair_has(s: Seq<(Vec<u8>, Vec<u8>)>, k: Seq<u8>, v: Seq<u8>) -> bool {
    exists|i: int| 0 <= i < s.len() && s[i].0@ == k && s[i].1@ == v
}

/// No two entries of `s` share a key.
pub open spec fn pair_keys_unique(s: Seq<(Vec<u8>, Vec<u8>)>) -> bool {
    forall|a: int, b: int| 0 <= a < b < s.len() ==> s[a].0@ != s[b].0@
}

/// Metadata carried by one spoof rule.
#[derive(Clone, Copy, PartialEq, Eq, Structural, Debug)]
pub struct SpoofMeta {
    pub uid: u32,
    pub gid: u32,
    pub mode: u16,
    pub mtime: u64,
}

/// `s` holds a spoof entry for `k` with metadata `m`.
pub open spec fn spoof_has(s: Seq<(Vec<u8>, SpoofMeta)>, k: Seq<u8>, m: SpoofMeta) -> bool {
    exists|i: int| 0 <= i < s.len() && s[i].0@ == k && s[i].1 == m
}

/// No two spoof entries of `s` share a name.
pub open spec fn spoof_keys_unique(s: Seq<(Vec<u8>, SpoofMeta)>) -> bool {
    forall|a: int, b: int| 0 <= a < b < s.len() ==> s[a].0@ != s[b].0@
}

/// Removes the entry keyed `k` from a pair table, if present.
fn pair_remove(t: &mut Vec<(Vec<u8>, Vec<u8>)>, k: &Vec<u8>)
    requires
        pair_keys_unique(old(t)@),
    ensures
        pair_keys_unique(final(t)@),
        forall|q: Seq<u8>, w: Seq<u8>|
            pair_has(final(t)@, q, w) <==> (q != k@ && pair_has(old(t)@, q, w)),
{
    let mut i: usize = 0;
    while i < t.len()
        invariant
            i <= t@.len(),
            t@ == old(t)@,
            pair_keys_unique(t@),
            forall|j: int| 0 <= j < i ==> t@[j].0@ != k@,
        decreases t.len() - i,
    {
        if crate::bytes::bytes_eq(&t[i].0, k) {
            let ghost s = t@;
            let ghost ii = i as int;
            t.remove(i);
            proof {
                s.remove_ensures(ii);
                assert forall|q: Seq<u8>, w: Seq<u8>| #[trigger] pair_has(t@, q, w) implies (q
                    != k@ && pair_has(s, q, w)) by {
                    let j = choose|j: int| 0 <= j < t@.len() && t@[j].0@ == q && t@[j].1@ == w;
                    if j < ii {
                        assert(s[j].0@ == q && s[j].1@ == w);
                        assert(s[j].0@ != s[ii].0@);
                        assert(pair_has(s, q, w));
                    } else {
                        assert(s[j + 1].0@ == q && s[j + 1].1@ == w);
                        assert(s[ii].0@ != s[j + 1].0@);
                        assert(pair_has(s, q, w));
                    }
                };
                assert forall|q: Seq<u8>, w: Seq<u8>| q != k@ && #[trigger] pair_has(s, q, w)
                    implies pair_has(t@, q, w) by {
                    let j = choose|j: int| 0 <= j < s.len() && s[j].0@ == q && s[j].1@ == w;
                    if j < ii {
                        assert(t@[j].0@ == q && t@[j].1@ == w);
                    } else {
                        assert(t@[j - 1].0@ == q && t@[j - 1].1@ == w);
                    }
                };
            }
            return ;
        }
        i = i + 1;
    }
}

/// Inserts or replaces the entry keyed `k` in a pair table.
fn pair_upsert(t: &mut Vec<(Vec<u8>, Vec<u8>)>, k: &Vec<u8>, v: Vec<u8>)
    requires
        pair_keys_unique(old(t)@),
    ensures
        pair_keys_unique(final(t)@),
        forall|q: Seq<u8>, w: Seq<u8>|
            pair_has(final(t)@, q, w) <==> ((q == k@ && w == v@) || (q != k@ && pair_has(
                old(t)@,
                q,
                w,
            ))),
{
    pair_remove(t, k);
    let ghost s = t@;
    t.push((crate::bytes::copy_bytes(k), v));
    proof {
        assert forall|q: Seq<u8>, w: Seq<u8>| #[trigger] pair_has(t@, q, w) implies ((q == k@ && w
            == v@) || (q != k@ && pair_has(s, q, w))) by {
            let j = choose|j: int| 0 <= j < t@.len() && t@[j].0@ == q && t@[j].1@ == w;
            if j < s.len() {
                assert(s[j].0@ == q && s[j].1@ == w);
                assert(pair_has(s, q, w));
                assert(q != k@);
            } else {
                assert(t@[j].0@ == k@ && t@[j].1@ == v@);
            }
        };
        assert(t@[s.len() as int].0@ == k@ && t@[s.len() as int].1@ == v@);
        assert(pair_has(t@, k@, v@));
        assert forall|q: Seq<u8>, w: Seq<u8>| q != k@ && #[trigger] pair_has(s, q, w) implies
            pair_has(t@, q, w) by {
            let j = choose|j: int| 0 <= j < s.len() && s[j].0@ == q && s[j].1@ == w;
            assert(t@[j].0@ == q && t@[j].1@ == w);
        };
        assert forall|a: int, b: int| 0 <= a < b < t@.len() implies t@[a].0@ != t@[b].0@ by {
            if b < s.len() {
                assert(s[a].0@ != s[b].0@);
            } else {
                assert(pair_has(s, s[a].0@, s[a].1@));
            }
        };
    }
}

/// Removes the spoof entry named `k`, if present.
fn spoof_remove(t: &mut Vec<(Vec<u8>, SpoofMeta)>, k: &Vec<u8>)
    requires
        spoof_keys_unique(old(t)@),
    ensures
        spoof_keys_unique(final(t)@),
        forall|q: Seq<u8>, m: SpoofMeta|
            spoof_has(final(t)@, q, m) <==> (q != k@ && spoof_has(old(t)@, q, m)),
{
    let mut i: usize = 0;
    while i < t.len()
        invariant
            i <= t@.len(),
            t@ == old(t)@,
            spoof_keys_unique(t@),
            forall|j: int| 0 <= j < i ==> t@[j].0@ != k@,
        decreases t.len() - i,
    {
        if crate::bytes::bytes_eq(&t[i].0, k) {
            let ghost s = t@;
            let ghost ii = i as int;
            t.remove(i);
            proof {
                s.remove_ensures(ii);
                assert forall|q: Seq<u8>, m: SpoofMeta| #[trigger] spoof_has(t@, q, m) implies (q
                    != k@ && spoof_has(s, q, m)) by {
                    let j = choose|j: int| 0 <= j < t@.len() && t@[j].0@ == q && t@[j].1 == m;
                    if j < ii {
                        assert(s[j].0@ == q && s[j].1 == m);
                        assert(s[j].0@ != s[ii].0@);
                        assert(spoof_has(s, q, m));
                    } else {
                        assert(s[j + 1].0@ == q && s[j + 1].1 == m);
                        assert(s[ii].0@ != s[j + 1].0@);
                        assert(spoof_has(s, q, m));
                    }
                };
                assert forall|q: Seq<u8>, m: SpoofMeta| q != k@ && #[trigger] spoof_has(s, q, m)
                    implies spoof_has(t@, q, m) by {
                    let j = choose|j: int| 0 <= j < s.len() && s[j].0@ == q && s[j].1 == m;
                    if j < ii {
                        assert(t@[j].0@ == q && t@[j].1 == m);
                    } else {
                        assert(t@[j - 1].0@ == q && t@[j - 1].1 == m);
                    }
                };
            }
            return ;
        }
        i = i + 1;
    }
}

/// A model of the driver's externally observable rule table: the hidden-name
/// set, the redirect and merge tables keyed by source, the spoof table keyed
/// by name, and the trusted group id. It mirrors, verb by verb, the state
/// the requests of this module drive the device into, and serves as the
/// reference transport for tests.
pub struct DriverModel {
    hidden: Vec<Vec<u8>>,
    redirects: Vec<(Vec<u8>, Vec<u8>)>,
    merges: Vec<(Vec<u8>, Vec<u8>)>,
    spoofs: Vec<(Vec<u8>, SpoofMeta)>,
    trusted_gid: Option<u32>,
}

impl DriverModel {
    /// Internal tables hold no duplicate names or keys.
    pub closed spec fn wf(&self) -> bool {
        names_unique(self.hidden@) && pair_keys_unique(self.redirects@) && pair_keys_unique(
            self.merges@,
        ) && spoof_keys_unique(self.spoofs@)
    }

    /// The observable set of hidden names.
    pub closed spec fn hidden_set(&self) -> Set<Seq<u8>> {
        set_of(self.hidden@)
    }

    /// The observable redirect table.
    pub closed spec fn redirect_of(&self, src: Seq<u8>, target: Seq<u8>) -> bool {
        pair_has(self.redirects@, src, target)
    }

    /// The observable merge table.
    pub closed spec fn merge_of(&self, src: Seq<u8>, target: Seq<u8>) -> bool {
        pair_has(self.merges@, src, target)
    }

    /// The observable spoof table.
    pub closed spec fn spoof_of(&self, name: Seq<u8>, m: SpoofMeta) -> bool {
        spoof_has(self.spoofs@, name, m)
    }

    /// The observable trusted group id.
    pub closed spec fn trusted(&self) -> Option<u32> {
        self.trusted_gid
    }

    /// An empty rule table.
    pub fn new() -> (r: DriverModel)
        ensures
            r.wf(),
            r.hidden_set() == Set::<Seq<u8>>::empty(),
            forall|q: Seq<u8>, w: Seq<u8>| !r.redirect_of(q, w) && !r.merge_of(q, w),
            forall|q: Seq<u8>, m: SpoofMeta| !r.spoof_of(q, m),
            r.trusted() is None,
    {
        let r = DriverModel {
            hidden: Vec::new(),
            redirects: Vec::new(),
            merges: Vec::new(),
            spoofs: Vec::new(),
            trusted_gid: None,
        };
        proof {
            assert(r.hidden_set() =~= Set::<Seq<u8>>::empty());
        }
        r
    }

    /// Registers `name` as hidden.
    pub fn add_hide(&mut self, name: &Vec<u8>)
        requires
            old(self).wf(),
        ensures
            final(self).wf(),
            final(self).hidden_set() == old(self).hidden_set().insert(name@),
            forall|q: Seq<u8>, w: Seq<u8>|
                final(self).redirect_of(q, w) == old(self).redirect_of(q, w),
            forall|q: Seq<u8>, w: Seq<u8>| final(self).merge_of(q, w) == old(self).merge_of(q, w),
            forall|q: Seq<u8>, n: SpoofMeta| final(self).spoof_of(q, n) == old(self).spoof_of(q, n),
            final(self).trusted() == old(self).trusted(),
    {
        if !crate::bytes::list_contains(&self.hidden, name) {
            let ghost s = self.hidden@;
            self.hidden.push(crate::bytes::copy_bytes(name));
            proof {
                assert forall|x: Seq<u8>| #[trigger] set_of(self.hidden@).contains(x) implies
                    set_of(s).insert(name@).contains(x) by {
                    let j = choose|j: int| 0 <= j < self.hidden@.len() && self.hidden@[j]@ == x;
                    if j < s.len() {
                        assert(s[j]@ == x);
                    }
                };
                assert(self.hidden@[s.len() as int]@ == name@);
                assert(crate::bytes::has_bytes(self.hidden@, name@));
                assert forall|x: Seq<u8>| #[trigger] set_of(s).insert(name@).contains(x) implies
                    set_of(self.hidden@).contains(x) by {
                    if x != name@ {
                        let j = choose|j: int| 0 <= j < s.len() && s[j]@ == x;
                        assert(self.hidden@[j]@ == x);
                    }
                };
                assert(set_of(self.hidden@) =~= set_of(s).insert(name@));
            }
        } else {
            proof {
                assert(set_of(self.hidden@) =~= set_of(self.hidden@).insert(name@));
            }
        }
    }

    /// Removes `name` from the hidden set.
    pub fn del_hide(&mut self, name: &Vec<u8>)
        requires
            old(self).wf(),
        ensures
            final(self).wf(),
            final(self).hidden_set() == old(self).hidden_set().remove(name@),
            forall|q: Seq<u8>, w: Seq<u8>|
                final(self).redirect_of(q, w) == old(self).redirect_of(q, w),
            forall|q: Seq<u8>, w: Seq<u8>| final(self).merge_of(q, w) == old(self).merge_of(q, w),
            forall|q: Seq<u8>, n: SpoofMeta| final(self).spoof_of(q, n) == old(self).spoof_of(q, n),
            final(self).trusted() == old(self).trusted(),
    {
        let mut i: usize = 0;
        while i < self.hidden.len()
            invariant
                i <= self.hidden@.len(),
                self == old(self),
                self.wf(),
                forall|j: int| 0 <= j < i ==> self.hidden@[j]@ != name@,
            decreases self.hidden.len() - i,
        {
            if crate::bytes::bytes_eq(&self.hidden[i], name) {
                let ghost s = self.hidden@;
                let ghost ii = i as int;
                self.hidden.remove(i);
                proof {
                    s.remove_ensures(ii);
                    assert forall|x: Seq<u8>| #[trigger] set_of(self.hidden@).contains(x) implies
                        set_of(s).remove(name@).contains(x) by {
                        let j = choose|j: int|
                            0 <= j < self.hidden@.len() && self.hidden@[j]@ == x;
                        if j < ii {
                            assert(s[j]@ == x);
                            assert(s[j]@ != s[ii]@);
                            assert(crate::bytes::has_bytes(s, x));
                        } else {
                            assert(s[j + 1]@ == x);
                            assert(s[ii]@ != s[j + 1]@);
                            assert(crate::bytes::has_bytes(s, x));
                        }
                    };
                    assert forall|x: Seq<u8>| #[trigger] set_of(s).remove(name@).contains(x)
                        implies set_of(self.hidden@).contains(x) by {
                        let j = choose|j: int| 0 <= j < s.len() && s[j]@ == x;
                        if j < ii {
                            assert(self.hidden@[j]@ == x);
                        } else {
                            assert(self.hidden@[j - 1]@ == x);
                        }
                    };
                    assert(set_of(self.hidden@) =~= set_of(s).remove(name@));
                    assert forall|a: int, b: int| 0 <= a < b < self.hidden@.len() implies
                        self.hidden@[a]@ != self.hidden@[b]@ by {
                        if b < ii {
                            assert(s[a]@ != s[b]@);
                        } else if a < ii {
                            assert(s[a]@ != s[b + 1]@);
                        } else {
                            assert(s[a + 1]@ != s[b + 1]@);
                        }
                    };
                }
                return ;
            }
            i = i + 1;
        }
        proof {
            assert(set_of(self.hidden@) =~= set_of(self.hidden@).remove(name@));
        }
    }

    /// Installs a redirect from `src` to `target`, replacing any earlier one.
    pub fn add_redirect(&mut self, src: &Vec<u8>, target: &Vec<u8>)
        requires
            old(self).wf(),
        ensures
            final(self).wf(),
            forall|q: Seq<u8>, w: Seq<u8>|
                final(self).redirect_of(q, w) <==> ((q == src@ && w == target@) || (q != src@
                    && old(self).redirect_of(q, w))),
            final(self).hidden_set() == old(self).hidden_set(),
            forall|q: Seq<u8>, w: Seq<u8>| final(self).merge_of(q, w) == old(self).merge_of(q, w),
            forall|q: Seq<u8>, n: SpoofMeta| final(self).spoof_of(q, n) == old(self).spoof_of(q, n),
            final(self).trusted() == old(self).trusted(),
    {
        pair_upsert(&mut self.redirects, src, crate::bytes::copy_bytes(target));
    }

    /// Drops the redirect of `src`, if any.
    pub fn del_redirect(&mut self, src: &Vec<u8>)
        requires
            old(self).wf(),
        ensures
            final(self).wf(),
            forall|q: Seq<u8>, w: Seq<u8>|
                final(self).redirect_of(q, w) <==> (q != src@ && old(self).redirect_of(q, w)),
            final(self).hidden_set() == old(self).hidden_set(),
            forall|q: Seq<u8>, w: Seq<u8>| final(self).merge_of(q, w) == old(self).merge_of(q, w),
            forall|q: Seq<u8>, n: SpoofMeta| final(self).spoof_of(q, n) == old(self).spoof_of(q, n),
            final(self).trusted() == old(self).trusted(),
    {
        pair_remove(&mut self.redirects, src);
    }

    /// Installs a merge of `src` into `target`, replacing any earlier one.
    pub fn add_merge(&mut self, src: &Vec<u8>, target: &Vec<u8>)
        requires
            old(self).wf(),
        ensures
            final(self).wf(),
            forall|q: Seq<u8>, w: Seq<u8>|
                final(self).merge_of(q, w) <==> ((q == src@ && w == target@) || (q != src@ && old(
                    self,
                ).merge_of(q, w))),
            final(self).hidden_set() == old(self).hidden_set(),
            forall|q: Seq<u8>, w: Seq<u8>|
                final(self).redirect_of(q, w) == old(self).redirect_of(q, w),
            forall|q: Seq<u8>, n: SpoofMeta| final(self).spoof_of(q, n) == old(self).spoof_of(q, n),
            final(self).trusted() == old(self).trusted(),
    {
        pair_upsert(&mut self.merges, src, crate::bytes::copy_bytes(target));
    }

    /// Drops the merge rule of `src`, if any.
    pub fn del_merge(&mut self, src: &Vec<u8>)
        requires
            old(self).wf(),
        ensures
            final(self).wf(),
            forall|q: Seq<u8>, w: Seq<u8>|
                final(self).merge_of(q, w) <==> (q != src@ && old(self).merge_of(q, w)),
            final(self).hidden_set() == old(self).hidden_set(),
            forall|q: Seq<u8>, w: Seq<u8>|
                final(self).redirect_of(q, w) == old(self).redirect_of(q, w),
            forall|q: Seq<u8>, n: SpoofMeta| final(self).spoof_of(q, n) == old(self).spoof_of(q, n),
            final(self).trusted() == old(self).trusted(),
    {
        pair_remove(&mut self.merges, src);
    }

    /// Installs a spoof of `name`'s metadata, replacing any earlier one.
    pub fn add_spoof(&mut self, name: &Vec<u8>, m: SpoofMeta)
        requires
            old(self).wf(),
        ensures
            final(self).wf(),
            forall|q: Seq<u8>, n: SpoofMeta|
                final(self).spoof_of(q, n) <==> ((q == name@ && n == m) || (q != name@ && old(
                    self,
                ).spoof_of(q, n))),
            final(self).hidden_set() == old(self).hidden_set(),
            forall|q: Seq<u8>, w: Seq<u8>|
                final(self).redirect_of(q, w) == old(self).redirect_of(q, w),
            forall|q: Seq<u8>, w: Seq<u8>| final(self).merge_of(q, w) == old(self).merge_of(q, w),
            final(self).trusted() == old(self).trusted(),
    {
        spoof_remove(&mut self.spoofs, name);
        let ghost s = self.spoofs@;
        self.spoofs.push((crate::bytes::copy_bytes(name), m));
        proof {
            assert forall|q: Seq<u8>, n: SpoofMeta| #[trigger] spoof_has(self.spoofs@, q, n)
                implies ((q == name@ && n == m) || (q != name@ && spoof_has(s, q, n))) by {
                let j = choose|j: int|
                    0 <= j < self.spoofs@.len() && self.spoofs@[j].0@ == q && self.spoofs@[j].1
                        == n;
                if j < s.len() {
                    assert(s[j].0@ == q && s[j].1 == n);
                    assert(spoof_has(s, q, n));
                    assert(q != name@);
                } else {
                    assert(self.spoofs@[j].0@ == name@ && self.spoofs@[j].1 == m);
                }
            };
            assert(self.spoofs@[s.len() as int].0@ == name@ && self.spoofs@[s.len() as int].1
                == m);
            assert(spoof_has(self.spoofs@, name@, m));
            assert forall|q: Seq<u8>, n: SpoofMeta| q != name@ && #[trigger] spoof_has(s, q, n)
                implies spoof_has(self.spoofs@, q, n) by {
                let j = choose|j: int| 0 <= j < s.len() && s[j].0@ == q && s[j].1 == n;
                assert(self.spoofs@[j].0@ == q && self.spoofs@[j].1 == n);
            };
            assert forall|a: int, b: int| 0 <= a < b < self.spoofs@.len() implies self.spoofs@[
                a
            ].0@ != self.spoofs@[b].0@ by {
                if b < s.len() {
                    assert(s[a].0@ != s[b].0@);
                } else {
                    assert(spoof_has(s, s[a].0@, s[a].1));
                }
            };
        }
    }

    /// Drops the spoof of `name`, if any.
    pub fn del_spoof(&mut self, name: &Vec<u8>)
        requires
            old(self).wf(),
        ensures
            final(self).wf(),
            forall|q: Seq<u8>, n: SpoofMeta|
                final(self).spoof_of(q, n) <==> (q != name@ && old(self).spoof_of(q, n)),
            final(self).hidden_set() == old(self).hidden_set(),
            forall|q: Seq<u8>, w: Seq<u8>|
                final(self).redirect_of(q, w) == old(self).redirect_of(q, w),
            forall|q: Seq<u8>, w: Seq<u8>| final(self).merge_of(q, w) == old(self).merge_of(q, w),
            final(self).trusted() == old(self).trusted(),
    {
        spoof_remove(&mut self.spoofs, name);
    }

    /// Sets the trusted group id.
    pub fn set_trusted_gid(&mut self, gid: u32)
        requires
            old(self).wf(),
        ensures
            final(self).wf(),
            final(self).trusted() == Some(gid),
            final(self).hidden_set() == old(self).hidden_set(),
            forall|q: Seq<u8>, w: Seq<u8>|
                final(self).redirect_of(q, w) == old(self).redirect_of(q, w),
            forall|q: Seq<u8>, w: Seq<u8>| final(self).merge_of(q, w) == old(self).merge_of(q, w),
            forall|q: Seq<u8>, n: SpoofMeta| final(self).spoof_of(q, n) == old(self).spoof_of(q, n),
    {
        self.trusted_gid = Some(gid);
    }

    /// Is `name` hidden?
    pub fn is_hidden(&self, name: &Vec<u8>) -> (r: bool)
        ensures
            r == self.hidden_set().contains(name@),
    {
        crate::bytes::list_contains(&self.hidden, name)
    }

    /// Is `src` redirected to `target`?
    pub fn has_redirect(&self, src: &Vec<u8>, target: &Vec<u8>) -> (r: bool)
        ensures
            r == self.redirect_of(src@, target@),
    {
        pair_table_has(&self.redirects, src, target)
    }

    /// Is `src` merged into `target`?
    pub fn has_merge(&self, src: &Vec<u8>, target: &Vec<u8>) -> (r: bool)
        ensures
            r == self.merge_of(src@, target@),
    {
        pair_table_has(&self.merges, src, target)
    }

    /// Is `name` spoofed with metadata `m`?
    pub fn has_spoof(&self, name: &Vec<u8>, m: SpoofMeta) -> (r: bool)
        ensures
            r == self.spoof_of(name@, m),
    {
        let mut i: usize = 0;
        while i < self.spoofs.len()
            invariant
                i <= self.spoofs@.len(),
                forall|j: int|
                    0 <= j < i ==> !(self.spoofs@[j].0@ == name@ && self.spoofs@[j].1 == m),
            decreases self.spoofs.len() - i,
        {
            if crate::bytes::bytes_eq(&self.spoofs[i].0, name) && self.spoofs[i].1.uid == m.uid
                && self.spoofs[i].1.gid == m.gid && self.spoofs[i].1.mode == m.mode
                && self.spoofs[i].1.mtime == m.mtime {
                return true;
            }
            i = i + 1;
        }
        false
    }

    /// The trusted group id, if one was set.
    pub fn trusted_gid(&self) -> (r: Option<u32>)
        ensures
            r == self.trusted(),
    {
        self.trusted_gid
    }
}

/// Does the pair table hold an entry mapping `k` to `v`?
fn pair_table_has(t: &Vec<(Vec<u8>, Vec<u8>)>, k: &Vec<u8>, v: &Vec<u8>) -> (r: bool)
    ensures
        r == pair_has(t@, k@, v@),
{
    let mut i: usize = 0;
    while i < t.len()
        invariant
            i <= t@.len(),
            forall|j: int| 0 <= j < i ==> !(t@[j].0@ == k@ && t@[j].1@ == v@),
        decreases t.len() - i,
    {
        if crate::bytes::bytes_eq(&t[i].0, k) && crate::bytes::bytes_eq(&t[i].1, v) {
            return true;
        }
        i = i + 1;
    }
    false
}

/// Hiding a name and then unhiding it leaves the observable hidden set as it
/// was, provided the name was not hidden to begin with: the pair of requests
/// is a no-op on the driver's rule table.
pub proof fn lemma_hide_unhide_noop(hidden: Set<Seq<u8>>, name: Seq<u8>)
    requires
        !hidden.contains(name),
    ensures
        hidden.insert(name).remove(name) == hidden,
{
    assert(hidden.insert(name).remove(name) =~= hidden);
}

} // verus!
