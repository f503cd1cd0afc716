//! Byte-level primitives of the wire format: an 8-byte little-endian
//! integer, a single-byte boolean, and a length-prefixed byte string.
//! Writers place bytes into a caller-supplied fixed buffer at an offset
//! cursor and return the advanced cursor; readers take the buffer and an
//! offset and return the value with the advanced cursor. Spec-level
//! encoders and decoders state the format once; the executable functions
//! are proved against them.

use vstd::prelude::*;

verus! {

/// Little-endian bytes of a 64-bit integer, the wire form of every count
/// and length field.
pub open spec fn u64_le(v: u64) -> Seq<u8> {
    seq![
        (v & 0xff) as u8,
        ((v >> 8) & 0xff) as u8,
        ((v >> 16) & 0xff) as u8,
        ((v >> 24) & 0xff) as u8,
        ((v >> 32) & 0xff) as u8,
        ((v >> 40) & 0xff) as u8,
        ((v >> 48) & 0xff) as u8,
        ((v >> 56) & 0xff) as u8,
    ]
}

/// The integer read back from 8 little-endian bytes.
pub open spec fn le_val(s: Seq<u8>) -> u64
    recommends
        s.len() == 8,
{
    ((s[0] as u64) | ((s[1] as u64) << 8) | ((s[2] as u64) << 16) | ((s[3] as u64) << 24)
        | ((s[4] as u64) << 32) | ((s[5] as u64) << 40) | ((s[6] as u64) << 48)
        | ((s[7] as u64) << 56)) as u64
}

/// Reading back the little-endian bytes of an integer yields the integer.
pub proof fn lemma_le_round_trip(v: u64)
    ensures
        le_val(u64_le(v)) == v,
{
    assert((((v & 0xff) as u8) as u64) | (((((v >> 8) & 0xff) as u8) as u64) << 8) | (((((v
        >> 16) & 0xff) as u8) as u64) << 16) | (((((v >> 24) & 0xff) as u8) as u64) << 24)
        | (((((v >> 32) & 0xff) as u8) as u64) << 32) | (((((v >> 40) & 0xff) as u8) as u64)
        << 40) | (((((v >> 48) & 0xff) as u8) as u64) << 48) | (((((v >> 56) & 0xff) as u8)
        as u64) << 56) == v) by (bit_vector);
}

/// The wire form of a boolean flag.
pub open spec fn bool_byte(b: bool) -> Seq<u8> {
    seq![if b { 1u8 } else { 0u8 }]
}

/// The wire form of an opaque value: its length, then its bytes.
pub open spec fn val_bytes(v: Seq<u8>) -> Seq<u8>
    recommends
        v.len() <= u64::MAX,
{
    u64_le(v.len() as u64) + v
}

/// Spec-level read of an 8-byte integer at `i`; `None` when the buffer is
/// too short.
pub open spec fn dec_u64(s: Seq<u8>, i: int) -> Option<(u64, int)> {
    if 0 <= i && i + 8 <= s.len() {
        Some((le_val(s.subrange(i, i + 8)), i + 8))
    } else {
        None
    }
}

/// Spec-level read of a boolean at `i`; `None` when the buffer is too short
/// or the byte is not 0 or 1.
pub open spec fn dec_bool(s: Seq<u8>, i: int) -> Option<(bool, int)> {
    if 0 <= i && i + 1 <= s.len() {
        if s[i] == 0u8 {
            Some((false, i + 1))
        } else if s[i] == 1u8 {
            Some((true, i + 1))
        } else {
            None
        }
    } else {
        None
    }
}

/// Spec-level read of a length-prefixed value at `i`.
pub open spec fn dec_val(s: Seq<u8>, i: int) -> Option<(Seq<u8>, int)> {
    match dec_u64(s, i) {
        Some((len, j)) => if j + len <= s.len() {
            Some((s.subrange(j, j + len), j + len))
        } else {
            None
        },
        None => None,
    }
}

/// Decoding an integer placed at `i` inside any larger buffer recovers it.
pub proof fn lemma_dec_u64_of_enc(s: Seq<u8>, i: int, v: u64)
    requires
        0 <= i,
        i + 8 <= s.len(),
        s.subrange(i, i + 8) == u64_le(v),
    ensures
        dec_u64(s, i) == Some((v, i + 8)),
{
    lemma_le_round_trip(v);
}

/// Decoding a flag byte placed at `i` inside any larger buffer recovers it.
pub proof fn lemma_dec_bool_of_enc(s: Seq<u8>, i: int, b: bool)
    requires
        0 <= i,
        i + 1 <= s.len(),
        s.subrange(i, i + 1) == bool_byte(b),
    ensures
        dec_bool(s, i) == Some((b, i + 1)),
{
    assert(s[i] == bool_byte(b)[0]);
}

/// Decoding a length-prefixed value placed at `i` inside any larger buffer
/// recovers it.
pub proof fn lemma_dec_val_of_enc(s: Seq<u8>, i: int, v: Seq<u8>)
    requires
        0 <= i,
        v.len() <= u64::MAX,
        i + 8 + v.len() <= s.len(),
        s.subrange(i, i + 8 + v.len()) == val_bytes(v),
    ensures
        dec_val(s, i) == Some((v, i + 8 + v.len())),
{
    let w = s.subrange(i, i + 8 + v.len());
    assert(s.subrange(i, i + 8) =~= w.subrange(0, 8));
    assert(w.subrange(0, 8) =~= u64_le(v.len() as u64));
    lemma_dec_u64_of_enc(s, i, v.len() as u64);
    assert(s.subrange(i + 8, i + 8 + v.len()) =~= w.subrange(8, 8 + v.len() as int));
    assert(w.subrange(8, 8 + v.len() as int) =~= v);
}

/// Two buffers that agree on a range have equal subranges there.
pub proof fn lemma_frame_subrange(a: Seq<u8>, b: Seq<u8>, lo: int, hi: int)
    requires
        0 <= lo <= hi <= a.len(),
        hi <= b.len(),
        forall|k: int| lo <= k < hi ==> a[k] == b[k],
    ensures
        a.subrange(lo, hi) == b.subrange(lo, hi),
{
    assert(a.subrange(lo, hi) =~= b.subrange(lo, hi));
}

/// Adjacent encoded fields concatenate: a buffer whose range `[lo, mid)`
/// holds `x` and whose range `[mid, hi)` holds `y` holds `x + y` on
/// `[lo, hi)`.
pub proof fn lemma_cat_subranges(s: Seq<u8>, lo: int, mid: int, hi: int)
    requires
        0 <= lo <= mid <= hi <= s.len(),
    ensures
        s.subrange(lo, hi) == s.subrange(lo, mid) + s.subrange(mid, hi),
{
    assert(s.subrange(lo, hi) =~= s.subrange(lo, mid) + s.subrange(mid, hi));
}

/// Writes one byte at `offset`, advancing the cursor by one.
pub fn write_byte(buf: &mut Vec<u8>, offset: usize, b: u8) -> (end: usize)
    requires
        offset + 1 <= old(buf).len(),
    ensures
        end == offset + 1,
        final(buf).len() == old(buf).len(),
        final(buf)@.subrange(offset as int, end as int) == seq![b],
        forall|k: int| 0 <= k < old(buf).len() && k != offset ==> final(buf)@[k] == old(buf)@[k],
{
    buf.set(offset, b);
    proof {
        assert(buf@.subrange(offset as int, offset + 1) =~= seq![b]);
    }
    offset + 1
}

/// Writes a 64-bit integer as 8 little-endian bytes at `offset`.
pub fn write_u64(buf: &mut Vec<u8>, offset: usize, v: u64) -> (end: usize)
    requires
        offset + 8 <= old(buf).len(),
    ensures
        end == offset + 8,
        final(buf).len() == old(buf).len(),
        final(buf)@.subrange(offset as int, end as int) == u64_le(v),
        forall|k: int| 0 <= k < old(buf).len() && !(offset <= k < end) ==> final(buf)@[k] == old(
            buf,
        )@[k],
{
    buf.set(offset, (v & 0xff) as u8);
    buf.set(offset + 1, ((v >> 8) & 0xff) as u8);
    buf.set(offset + 2, ((v >> 16) & 0xff) as u8);
    buf.set(offset + 3, ((v >> 24) & 0xff) as u8);
    buf.set(offset + 4, ((v >> 32) & 0xff) as u8);
    buf.set(offset + 5, ((v >> 40) & 0xff) as u8);
    buf.set(offset + 6, ((v >> 48) & 0xff) as u8);
    buf.set(offset + 7, ((v >> 56) & 0xff) as u8);
    proof {
        assert(buf@.subrange(offset as int, offset + 8) =~= u64_le(v));
    }
    offset + 8
}

/// Copies a byte string into the buffer at `offset`.
pub fn write_bytes(buf: &mut Vec<u8>, offset: usize, data: &Vec<u8>) -> (end: usize)
    requires
        offset + data.len() <= old(buf).len(),
    ensures
        end == offset + data.len(),
        final(buf).len() == old(buf).len(),
        final(buf)@.subrange(offset as int, end as int) == data@,
        forall|k: int| 0 <= k < old(buf).len() && !(offset <= k < end) ==> final(buf)@[k] == old(
            buf,
        )@[k],
{
    let n = data.len();
    let mut i: usize = 0;
    while i < n
        invariant
            n == data.len(),
            0 <= i <= n,
            offset + n <= buf.len(),
            buf.len() == old(buf).len(),
            forall|k: int| offset <= k < offset + i ==> buf@[k] == data@[k - offset],
            forall|k: int|
                0 <= k < old(buf).len() && !(offset <= k < offset + n) ==> buf@[k] == old(
                    buf,
                )@[k],
        decreases n - i,
    {
        buf.set(offset + i, data[i]);
        i = i + 1;
    }
    proof {
        assert(buf@.subrange(offset as int, offset + n) =~= data@);
    }
    offset + n
}

/// Writes a length-prefixed opaque value at `offset`.
pub fn write_val(buf: &mut Vec<u8>, offset: usize, data: &Vec<u8>) -> (end: usize)
    requires
        offset + 8 + data.len() <= old(buf).len(),
    ensures
        end == offset + 8 + data.len(),
        final(buf).len() == old(buf).len(),
        final(buf)@.subrange(offset as int, end as int) == val_bytes(data@),
        forall|k: int| 0 <= k < old(buf).len() && !(offset <= k < end) ==> final(buf)@[k] == old(
            buf,
        )@[k],
{
    let ghost buf0 = buf@;
    let mid = write_u64(buf, offset, data.len() as u64);
    let ghost buf1 = buf@;
    let end = write_bytes(buf, mid, data);
    proof {
        lemma_frame_subrange(buf1, buf@, offset as int, mid as int);
        lemma_cat_subranges(buf@, offset as int, mid as int, end as int);
    }
    end
}

/// Writes a boolean flag byte at `offset`.
pub fn write_bool(buf: &mut Vec<u8>, offset: usize, b: bool) -> (end: usize)
    requires
        offset + 1 <= old(buf).len(),
    ensures
        end == offset + 1,
        final(buf).len() == old(buf).len(),
        final(buf)@.subrange(offset as int, end as int) == bool_byte(b),
        forall|k: int| 0 <= k < old(buf).len() && k != offset ==> final(buf)@[k] == old(buf)@[k],
{
    write_byte(buf, offset, if b { 1 } else { 0 })
}

/// Reads an 8-byte integer at `offset`; errs exactly when the spec-level
/// read does.
pub fn read_u64(buf: &Vec<u8>, offset: usize) -> (r: Option<(u64, usize)>)
    ensures
        match dec_u64(buf@, offset as int) {
            Some((v, end)) => r == Some((v, end as usize)),
            None => r is None,
        },
{
    if offset <= buf.len() && buf.len() - offset >= 8 {
        let v: u64 = (buf[offset] as u64) | ((buf[offset + 1] as u64) << 8) | ((buf[offset
            + 2] as u64) << 16) | ((buf[offset + 3] as u64) << 24) | ((buf[offset + 4] as u64)
            << 32) | ((buf[offset + 5] as u64) << 40) | ((buf[offset + 6] as u64) << 48) | ((buf[
            offset + 7] as u64) << 56);
        proof {
            let s = buf@.subrange(offset as int, offset + 8);
            assert(s[0] == buf@[offset as int] && s[1] == buf@[offset + 1] && s[2] == buf@[offset
                + 2] && s[3] == buf@[offset + 3] && s[4] == buf@[offset + 4] && s[5] == buf@[offset
                + 5] && s[6] == buf@[offset + 6] && s[7] == buf@[offset + 7]);
        }
        Some((v, offset + 8))
    } else {
        None
    }
}

/// Reads a flag byte at `offset`; errs exactly when the spec-level read
/// does, in particular on any byte other than 0 or 1.
pub fn read_bool(buf: &Vec<u8>, offset: usize) -> (r: Option<(bool, usize)>)
    ensures
        match dec_bool(buf@, offset as int) {
            Some((b, end)) => r == Some((b, end as usize)),
            None => r is None,
        },
{
    if offset < buf.len() {
        let b = buf[offset];
        if b == 0 {
            Some((false, offset + 1))
        } else if b == 1 {
            Some((true, offset + 1))
        } else {
            None
        }
    } else {
        None
    }
}

/// Reads a length-prefixed opaque value at `offset`; errs exactly when the
/// spec-level read does.
pub fn read_val(buf: &Vec<u8>, offset: usize) -> (r: Option<(Vec<u8>, usize)>)
    ensures
        match dec_val(buf@, offset as int) {
            Some((v, end)) => r is Some && r.unwrap().0@ == v && r.unwrap().1 == end,
            None => r is None,
        },
{
    match read_u64(buf, offset) {
        Some((len, start)) => {
            if len <= (buf.len() - start) as u64 {
                let end = start + (len as usize);
                let mut out: Vec<u8> = Vec::new();
                let mut i: usize = start;
                while i < end
                    invariant
                        start <= i <= end,
                        end <= buf.len(),
                        out@ == buf@.subrange(start as int, i as int),
                    decreases end - i,
                {
                    out.push(buf[i]);
                    proof {
                        assert(out@ =~= buf@.subrange(start as int, i + 1));
                    }
                    i = i + 1;
                }
                Some((out, end))
            } else {
                None
            }
        },
        None => None,
    }
}

} // verus!
