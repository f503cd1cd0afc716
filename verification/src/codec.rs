//! The executable codec: encoders that place each message kind into a
//! caller-supplied fixed buffer at an offset cursor, and decoders that read
//! it back. Every encoder is proved to produce exactly the spec-level wire
//! bytes, and every decoder to agree with the spec-level parser — returning
//! `None` precisely where the bytes do not parse.

use vstd::prelude::*;
use crate::bytes::{
    val_bytes, bool_byte, u64_le, dec_val, dec_bool, dec_u64, write_u64, write_byte, write_bool,
    write_val, read_u64, read_bool, read_val, lemma_frame_subrange, lemma_cat_subranges,
};
use crate::wire::{
    Header, Config, SpecRequest, SpecStepRow, header_bytes, dec_header, vals_bytes,
    dec_vals, pairs_bytes, dec_pairs, dict_bytes, dec_dict, patch_part, dec_patch, request_bytes,
    dec_request, step_row_bytes, step_rows_bytes, dec_step_rows, dec_info_part,
    step_response_bytes, dec_step_response, episode_response_bytes, dec_episode_response,
    shapes_response_bytes, dec_shapes_response,
};

verus! {

/// The byte strings of a list of values, as the spec sees them.
pub open spec fn vals_view(vs: Seq<Vec<u8>>) -> Seq<Seq<u8>> {
    Seq::new(vs.len(), |i: int| vs[i]@)
}

/// The byte strings of a list of key-value pairs, as the spec sees them.
pub open spec fn pairs_view(ps: Seq<(Vec<u8>, Vec<u8>)>) -> Seq<(Seq<u8>, Seq<u8>)> {
    Seq::new(ps.len(), |i: int| (ps[i].0@, ps[i].1@))
}

/// A decoded environment-action request.
#[derive(Debug, Clone, PartialEq, Eq)]
pub enum Request {
    /// One action per agent of the current roster, in roster order.
    Step { actions: Vec<Vec<u8>>, patch: Option<Vec<(Vec<u8>, Vec<u8>)>> },
    Reset { patch: Option<Vec<(Vec<u8>, Vec<u8>)>> },
    SetState { state: Vec<u8>, patch: Option<Vec<(Vec<u8>, Vec<u8>)>> },
}

pub open spec fn patch_view(p: Option<Vec<(Vec<u8>, Vec<u8>)>>) -> Option<
    Seq<(Seq<u8>, Seq<u8>)>,
> {
    match p {
        Some(ps) => Some(pairs_view(ps@)),
        None => None,
    }
}

impl View for Request {
    type V = SpecRequest;

    open spec fn view(&self) -> SpecRequest {
        match self {
            Request::Step { actions, patch } => SpecRequest::Step {
                actions: vals_view(actions@),
                patch: patch_view(*patch),
            },
            Request::Reset { patch } => SpecRequest::Reset { patch: patch_view(*patch) },
            Request::SetState { state, patch } => SpecRequest::SetState {
                state: state@,
                patch: patch_view(*patch),
            },
        }
    }
}

/// One agent's slice of a step response.
#[derive(Debug, Clone, PartialEq, Eq)]
pub struct StepRow {
    pub agent_id: Vec<u8>,
    pub obs: Vec<u8>,
    pub reward: Vec<u8>,
    pub terminated: bool,
    pub truncated: bool,
}

impl View for StepRow {
    type V = SpecStepRow;

    open spec fn view(&self) -> SpecStepRow {
        SpecStepRow {
            agent_id: self.agent_id@,
            obs: self.obs@,
            reward: self.reward@,
            terminated: self.terminated,
            truncated: self.truncated,
        }
    }
}

pub open spec fn rows_view(rs: Seq<StepRow>) -> Seq<SpecStepRow> {
    Seq::new(rs.len(), |i: int| rs[i]@)
}

/// Concatenating value lists concatenates their wire bytes.
pub proof fn lemma_vals_bytes_cat(a: Seq<Seq<u8>>, b: Seq<Seq<u8>>)
    ensures
        vals_bytes(a + b) == vals_bytes(a) + vals_bytes(b),
    decreases a.len(),
{
    if a.len() == 0 {
        assert(a + b =~= b);
        assert(vals_bytes(a) + vals_bytes(b) =~= vals_bytes(b));
    } else {
        assert((a + b).drop_first() =~= a.drop_first() + b);
        lemma_vals_bytes_cat(a.drop_first(), b);
        assert(vals_bytes(a + b) =~= vals_bytes(a) + vals_bytes(b));
    }
}

/// Concatenating pair lists concatenates their wire bytes.
pub proof fn lemma_pairs_bytes_cat(a: Seq<(Seq<u8>, Seq<u8>)>, b: Seq<(Seq<u8>, Seq<u8>)>)
    ensures
        pairs_bytes(a + b) == pairs_bytes(a) + pairs_bytes(b),
    decreases a.len(),
{
    if a.len() == 0 {
        assert(a + b =~= b);
        assert(pairs_bytes(a) + pairs_bytes(b) =~= pairs_bytes(b));
    } else {
        assert((a + b).drop_first() =~= a.drop_first() + b);
        lemma_pairs_bytes_cat(a.drop_first(), b);
        assert(pairs_bytes(a + b) =~= pairs_bytes(a) + pairs_bytes(b));
    }
}

/// Concatenating step-row lists concatenates their wire bytes.
pub proof fn lemma_step_rows_bytes_cat(a: Seq<SpecStepRow>, b: Seq<SpecStepRow>, emit_id: bool)
    ensures
        step_rows_bytes(a + b, emit_id) == step_rows_bytes(a, emit_id) + step_rows_bytes(
            b,
            emit_id,
        ),
    decreases a.len(),
{
    if a.len() == 0 {
        assert(a + b =~= b);
        assert(step_rows_bytes(a, emit_id) + step_rows_bytes(b, emit_id) =~= step_rows_bytes(
            b,
            emit_id,
        ));
    } else {
        assert((a + b).drop_first() =~= a.drop_first() + b);
        lemma_step_rows_bytes_cat(a.drop_first(), b, emit_id);
        assert(step_rows_bytes(a + b, emit_id) =~= step_rows_bytes(a, emit_id) + step_rows_bytes(
            b,
            emit_id,
        ));
    }
}

/// Appending one value appends its wire bytes.
pub proof fn lemma_vals_bytes_snoc(a: Seq<Seq<u8>>, v: Seq<u8>)
    ensures
        vals_bytes(a.push(v)) == vals_bytes(a) + val_bytes(v),
{
    let single = seq![v];
    assert(single.drop_first() =~= Seq::<Seq<u8>>::empty());
    assert(vals_bytes(single) =~= val_bytes(v) + vals_bytes(single.drop_first()));
    assert(vals_bytes(single) =~= val_bytes(v));
    lemma_vals_bytes_cat(a, single);
    assert(a + single =~= a.push(v));
}

/// Appending one pair appends its wire bytes.
pub proof fn lemma_pairs_bytes_snoc(a: Seq<(Seq<u8>, Seq<u8>)>, kv: (Seq<u8>, Seq<u8>))
    ensures
        pairs_bytes(a.push(kv)) == pairs_bytes(a) + (val_bytes(kv.0) + val_bytes(kv.1)),
{
    let single = seq![kv];
    assert(single.drop_first() =~= Seq::<(Seq<u8>, Seq<u8>)>::empty());
    assert(pairs_bytes(single) =~= val_bytes(kv.0) + val_bytes(kv.1) + pairs_bytes(
        single.drop_first(),
    ));
    assert(pairs_bytes(single) =~= val_bytes(kv.0) + val_bytes(kv.1));
    lemma_pairs_bytes_cat(a, single);
    assert(a + single =~= a.push(kv));
    assert(pairs_bytes(a) + pairs_bytes(single) =~= pairs_bytes(a) + (val_bytes(kv.0)
        + val_bytes(kv.1)));
}

/// Appending one step row appends its wire bytes.
pub proof fn lemma_step_rows_bytes_snoc(a: Seq<SpecStepRow>, row: SpecStepRow, emit_id: bool)
    ensures
        step_rows_bytes(a.push(row), emit_id) == step_rows_bytes(a, emit_id) + step_row_bytes(
            row,
            emit_id,
        ),
{
    let single = seq![row];
    assert(single.drop_first() =~= Seq::<SpecStepRow>::empty());
    assert(step_rows_bytes(single, emit_id) =~= step_row_bytes(row, emit_id) + step_rows_bytes(
        single.drop_first(),
        emit_id,
    ));
    assert(step_rows_bytes(single, emit_id) =~= step_row_bytes(row, emit_id));
    lemma_step_rows_bytes_cat(a, single, emit_id);
    assert(a + single =~= a.push(row));
}

/// Writes the message header at `offset`.
pub fn write_header(buf: &mut Vec<u8>, offset: usize, h: Header) -> (end: usize)
    requires
        offset + 1 <= old(buf).len(),
    ensures
        end == offset + 1,
        final(buf).len() == old(buf).len(),
        final(buf)@.subrange(offset as int, end as int) == header_bytes(h),
        forall|k: int| 0 <= k < old(buf).len() && k != offset ==> final(buf)@[k] == old(buf)@[k],
{
    let b: u8 = match h {
        Header::EnvAction => 0,
        Header::EnvShapesRequest => 1,
        Header::Stop => 2,
    };
    write_byte(buf, offset, b)
}

/// Reads the message header at `offset`; errs exactly when the spec-level
/// read does.
pub fn read_header(buf: &Vec<u8>, offset: usize) -> (r: Option<(Header, usize)>)
    ensures
        match dec_header(buf@, offset as int) {
            Some((h, end)) => r == Some((h, end as usize)),
            None => r is None,
        },
{
    if offset < buf.len() {
        let b = buf[offset];
        if b == 0 {
            Some((Header::EnvAction, offset + 1))
        } else if b == 1 {
            Some((Header::EnvShapesRequest, offset + 1))
        } else if b == 2 {
            Some((Header::Stop, offset + 1))
        } else {
            None
        }
    } else {
        None
    }
}

/// Writes a run of length-prefixed values at `offset`.
pub fn write_vals(buf: &mut Vec<u8>, offset: usize, vs: &Vec<Vec<u8>>) -> (end: usize)
    requires
        offset + vals_bytes(vals_view(vs@)).len() <= old(buf).len(),
    ensures
        end == offset + vals_bytes(vals_view(vs@)).len(),
        final(buf).len() == old(buf).len(),
        final(buf)@.subrange(offset as int, end as int) == vals_bytes(vals_view(vs@)),
        forall|k: int| 0 <= k < old(buf).len() && !(offset <= k < end) ==> final(buf)@[k] == old(
            buf,
        )@[k],
{
    let ghost full = vals_view(vs@);
    let ghost total = vals_bytes(full).len() as int;
    let n = vs.len();
    let mut cur: usize = offset;
    let mut i: usize = 0;
    while i < n
        invariant
            n == vs.len(),
            0 <= i <= n,
            full == vals_view(vs@),
            total == vals_bytes(full).len(),
            offset + total <= buf.len(),
            buf.len() == old(buf).len(),
            cur == offset + vals_bytes(full.take(i as int)).len(),
            buf@.subrange(offset as int, cur as int) == vals_bytes(full.take(i as int)),
            forall|k: int|
                0 <= k < old(buf).len() && !(offset <= k < offset + total) ==> buf@[k] == old(
                    buf,
                )@[k],
        decreases n - i,
    {
        proof {
            lemma_vals_bytes_snoc(full.take(i as int), full[i as int]);
            assert(full.take(i as int).push(full[i as int]) =~= full.take(i + 1));
            assert(full.take(i + 1) + full.skip(i + 1) =~= full);
            lemma_vals_bytes_cat(full.take(i + 1), full.skip(i + 1));
        }
        let ghost pre = buf@;
        let next = write_val(buf, cur, &vs[i]);
        proof {
            lemma_frame_subrange(pre, buf@, offset as int, cur as int);
            lemma_cat_subranges(buf@, offset as int, cur as int, next as int);
        }
        cur = next;
        i = i + 1;
    }
    proof {
        assert(full.take(n as int) =~= full);
    }
    cur
}

/// Reads a run of `n` length-prefixed values at `offset`; errs exactly
/// when the spec-level read does.
pub fn read_vals(buf: &Vec<u8>, offset: usize, n: usize) -> (r: Option<(Vec<Vec<u8>>, usize)>)
    ensures
        match dec_vals(buf@, offset as int, n as nat) {
            Some((vs, end)) => r is Some && vals_view(r.unwrap().0@) == vs && r.unwrap().1
                == end,
            None => r is None,
        },
{
    let mut out: Vec<Vec<u8>> = Vec::new();
    let mut cur: usize = offset;
    let mut i: usize = 0;
    while i < n
        invariant
            0 <= i <= n,
            out.len() == i,
            match dec_vals(buf@, cur as int, (n - i) as nat) {
                Some((vs, end)) => dec_vals(buf@, offset as int, n as nat) == Some(
                    (vals_view(out@) + vs, end),
                ),
                None => dec_vals(buf@, offset as int, n as nat) is None,
            },
        decreases n - i,
    {
        match read_val(buf, cur) {
            Some((v, next)) => {
                proof {
                    let m = (n - i) as nat;
                    let tail = dec_vals(buf@, next as int, (m - 1) as nat);
                    if tail is Some {
                        let (vs, end) = tail.unwrap();
                        assert(vals_view(out@) + (seq![v@] + vs) =~= vals_view(out@.push(v))
                            + vs);
                    }
                }
                out.push(v);
                cur = next;
                i = i + 1;
            },
            None => {
                return None;
            },
        }
    }
    proof {
        assert(vals_view(out@) + Seq::<Seq<u8>>::empty() =~= vals_view(out@));
    }
    Some((out, cur))
}

/// Writes a run of key-value pairs at `offset`.
pub fn write_pairs(buf: &mut Vec<u8>, offset: usize, ps: &Vec<(Vec<u8>, Vec<u8>)>) -> (end: usize)
    requires
        offset + pairs_bytes(pairs_view(ps@)).len() <= old(buf).len(),
    ensures
        end == offset + pairs_bytes(pairs_view(ps@)).len(),
        final(buf).len() == old(buf).len(),
        final(buf)@.subrange(offset as int, end as int) == pairs_bytes(pairs_view(ps@)),
        forall|k: int| 0 <= k < old(buf).len() && !(offset <= k < end) ==> final(buf)@[k] == old(
            buf,
        )@[k],
{
    let ghost full = pairs_view(ps@);
    let ghost total = pairs_bytes(full).len() as int;
    let n = ps.len();
    let mut cur: usize = offset;
    let mut i: usize = 0;
    while i < n
        invariant
            n == ps.len(),
            0 <= i <= n,
            full == pairs_view(ps@),
            total == pairs_bytes(full).len(),
            offset + total <= buf.len(),
            buf.len() == old(buf).len(),
            cur == offset + pairs_bytes(full.take(i as int)).len(),
            buf@.subrange(offset as int, cur as int) == pairs_bytes(full.take(i as int)),
            forall|k: int|
                0 <= k < old(buf).len() && !(offset <= k < offset + total) ==> buf@[k] == old(
                    buf,
                )@[k],
        decreases n - i,
    {
        proof {
            lemma_pairs_bytes_snoc(full.take(i as int), full[i as int]);
            assert(full.take(i as int).push(full[i as int]) =~= full.take(i + 1));
            assert(full.take(i + 1) + full.skip(i + 1) =~= full);
            lemma_pairs_bytes_cat(full.take(i + 1), full.skip(i + 1));
        }
        let ghost pre0 = buf@;
        let mid = write_val(buf, cur, &ps[i].0);
        let ghost pre1 = buf@;
        let next = write_val(buf, mid, &ps[i].1);
        proof {
            lemma_frame_subrange(pre0, buf@, offset as int, cur as int);
            lemma_frame_subrange(pre1, buf@, cur as int, mid as int);
            lemma_cat_subranges(buf@, cur as int, mid as int, next as int);
            lemma_cat_subranges(buf@, offset as int, cur as int, next as int);
        }
        cur = next;
        i = i + 1;
    }
    proof {
        assert(full.take(n as int) =~= full);
    }
    cur
}

/// Reads a run of `n` key-value pairs at `offset`; errs exactly when the
/// spec-level read does.
pub fn read_pairs(buf: &Vec<u8>, offset: usize, n: usize) -> (r: Option<
    (Vec<(Vec<u8>, Vec<u8>)>, usize),
>)
    ensures
        match dec_pairs(buf@, offset as int, n as nat) {
            Some((ps, end)) => r is Some && pairs_view(r.unwrap().0@) == ps && r.unwrap().1
                == end,
            None => r is None,
        },
{
    let mut out: Vec<(Vec<u8>, Vec<u8>)> = Vec::new();
    let mut cur: usize = offset;
    let mut i: usize = 0;
    while i < n
        invariant
            0 <= i <= n,
            out.len() == i,
            match dec_pairs(buf@, cur as int, (n - i) as nat) {
                Some((ps, end)) => dec_pairs(buf@, offset as int, n as nat) == Some(
                    (pairs_view(out@) + ps, end),
                ),
                None => dec_pairs(buf@, offset as int, n as nat) is None,
            },
        decreases n - i,
    {
        match read_val(buf, cur) {
            Some((k, mid)) => {
                match read_val(buf, mid) {
                    Some((v, next)) => {
                        proof {
                            let m = (n - i) as nat;
                            let tail = dec_pairs(buf@, next as int, (m - 1) as nat);
                            if tail is Some {
                                let (ps, end) = tail.unwrap();
                                assert(pairs_view(out@) + (seq![(k@, v@)] + ps) =~= pairs_view(
                                    out@.push((k, v)),
                                ) + ps);
                            }
                        }
                        out.push((k, v));
                        cur = next;
                        i = i + 1;
                    },
                    None => {
                        return None;
                    },
                }
            },
            None => {
                return None;
            },
        }
    }
    proof {
        assert(pairs_view(out@) + Seq::<(Seq<u8>, Seq<u8>)>::empty() =~= pairs_view(out@));
    }
    Some((out, cur))
}

/// Writes a dictionary — entry count, then entries — at `offset`.
pub fn write_dict(buf: &mut Vec<u8>, offset: usize, ps: &Vec<(Vec<u8>, Vec<u8>)>) -> (end: usize)
    requires
        offset + dict_bytes(pairs_view(ps@)).len() <= old(buf).len(),
    ensures
        end == offset + dict_bytes(pairs_view(ps@)).len(),
        final(buf).len() == old(buf).len(),
        final(buf)@.subrange(offset as int, end as int) == dict_bytes(pairs_view(ps@)),
        forall|k: int| 0 <= k < old(buf).len() && !(offset <= k < end) ==> final(buf)@[k] == old(
            buf,
        )@[k],
{
    let mid = write_u64(buf, offset, ps.len() as u64);
    let ghost pre = buf@;
    let end = write_pairs(buf, mid, ps);
    proof {
        lemma_frame_subrange(pre, buf@, offset as int, mid as int);
        lemma_cat_subranges(buf@, offset as int, mid as int, end as int);
    }
    end
}

/// Reads a dictionary at `offset`; errs exactly when the spec-level read
/// does.
pub fn read_dict(buf: &Vec<u8>, offset: usize) -> (r: Option<(Vec<(Vec<u8>, Vec<u8>)>, usize)>)
    ensures
        match dec_dict(buf@, offset as int) {
            Some((ps, end)) => r is Some && pairs_view(r.unwrap().0@) == ps && r.unwrap().1
                == end,
            None => r is None,
        },
{
    let blen = buf.len();
    match read_u64(buf, offset) {
        Some((n, mid)) => {
            if n <= usize::MAX as u64 {
                let r = read_pairs(buf, mid, n as usize);
                proof {
                    assert((n as usize) as nat == n as nat);
                }
                r
            } else {
                proof {
                    assert(buf@.len() == blen);
                    lemma_dec_pairs_some_bound(buf@, mid as int, n as nat);
                }
                None
            }
        },
        None => None,
    }
}

/// A run of pairs consumes at least 16 bytes per pair, so a count beyond
/// what the buffer could hold cannot parse.
proof fn lemma_dec_pairs_some_bound(s: Seq<u8>, i: int, n: nat)
    ensures
        n > 0 && dec_pairs(s, i, n) is Some ==> 0 <= i && i + 16 * n <= s.len(),
    decreases n,
{
    if n > 0 && dec_pairs(s, i, n) is Some {
        let (k, j) = dec_val(s, i).unwrap();
        let (v, j2) = dec_val(s, j).unwrap();
        lemma_dec_pairs_some_bound(s, j2, (n - 1) as nat);
    }
}

/// What an encoder demands of a request: fields that the configuration
/// does not provide a codec for cannot be formed.
pub open spec fn request_enc_wf(r: SpecRequest, cfg: Config) -> bool {
    match r {
        SpecRequest::Step { patch, .. } => patch is Some ==> cfg.patch_enabled,
        SpecRequest::Reset { patch } => patch is Some ==> cfg.patch_enabled,
        SpecRequest::SetState { patch, .. } => cfg.state_enabled && (patch is Some
            ==> cfg.patch_enabled),
    }
}

/// Copies a byte string.
pub fn copy_bytes(v: &Vec<u8>) -> (out: Vec<u8>)
    ensures
        out@ == v@,
{
    let mut out: Vec<u8> = Vec::new();
    let mut i: usize = 0;
    while i < v.len()
        invariant
            0 <= i <= v.len(),
            out@ == v@.take(i as int),
        decreases v.len() - i,
    {
        out.push(v[i]);
        proof {
            assert(out@ =~= v@.take(i + 1));
        }
        i = i + 1;
    }
    proof {
        assert(v@.take(v@.len() as int) =~= v@);
    }
    out
}

/// Writes the optional shared-info patch field of a request at `offset`.
pub fn write_patch(
    buf: &mut Vec<u8>,
    offset: usize,
    patch: &Option<Vec<(Vec<u8>, Vec<u8>)>>,
    enabled: bool,
) -> (end: usize)
    requires
        patch is Some ==> enabled,
        offset + patch_part(patch_view(*patch), enabled).len() <= old(buf).len(),
    ensures
        end == offset + patch_part(patch_view(*patch), enabled).len(),
        final(buf).len() == old(buf).len(),
        final(buf)@.subrange(offset as int, end as int) == patch_part(patch_view(*patch), enabled),
        forall|k: int| 0 <= k < old(buf).len() && !(offset <= k < end) ==> final(buf)@[k] == old(
            buf,
        )@[k],
{
    if enabled {
        match patch {
            Some(ps) => {
                let mid = write_bool(buf, offset, true);
                let ghost pre = buf@;
                let end = write_dict(buf, mid, ps);
                proof {
                    lemma_frame_subrange(pre, buf@, offset as int, mid as int);
                    lemma_cat_subranges(buf@, offset as int, mid as int, end as int);
                }
                end
            },
            None => write_bool(buf, offset, false),
        }
    } else {
        proof {
            assert(buf@.subrange(offset as int, offset as int) =~= Seq::<u8>::empty());
        }
        offset
    }
}

/// Reads the optional shared-info patch field at `offset`; errs exactly
/// when the spec-level read does.
pub fn read_patch(buf: &Vec<u8>, offset: usize, enabled: bool) -> (r: Option<
    (Option<Vec<(Vec<u8>, Vec<u8>)>>, usize),
>)
    ensures
        match dec_patch(buf@, offset as int, enabled) {
            Some((p, end)) => r is Some && patch_view(r.unwrap().0) == p && r.unwrap().1 == end,
            None => r is None,
        },
{
    let blen = buf.len();
    proof {
        assert(buf@.len() == blen);
    }
    if enabled {
        match read_bool(buf, offset) {
            Some((present, mid)) => {
                if present {
                    match read_dict(buf, mid) {
                        Some((ps, end)) => {
                            proof {
                                assert(dec_patch(buf@, offset as int, enabled) == Some(
                                    (Some(pairs_view(ps@)), end as int),
                                ));
                                assert(patch_view(Some(ps)) == Some(pairs_view(ps@)));
                            }
                            Some((Some(ps), end))
                        },
                        None => {
                            proof {
                                assert(dec_patch(buf@, offset as int, enabled) is None);
                            }
                            None
                        },
                    }
                } else {
                    proof {
                        assert(dec_patch(buf@, offset as int, enabled) == Some(
                            (None::<Seq<(Seq<u8>, Seq<u8>)>>, mid as int),
                        ));
                    }
                    Some((None, mid))
                }
            },
            None => {
                proof {
                    assert(dec_patch(buf@, offset as int, enabled) is None);
                }
                None
            },
        }
    } else {
        proof {
            assert(dec_patch(buf@, offset as int, enabled) == Some((None::<Seq<(Seq<u8>, Seq<u8>)>>, offset as int)));
        }
        Some((None, offset))
    }
}

/// Writes an environment-action request — tag, fields, optional patch — at
/// `offset`. The message header is written separately.
pub fn write_request(buf: &mut Vec<u8>, offset: usize, req: &Request, cfg: Config) -> (end: usize)
    requires
        request_enc_wf(req@, cfg),
        offset + request_bytes(req@, cfg).len() <= old(buf).len(),
    ensures
        end == offset + request_bytes(req@, cfg).len(),
        final(buf).len() == old(buf).len(),
        final(buf)@.subrange(offset as int, end as int) == request_bytes(req@, cfg),
        forall|k: int| 0 <= k < old(buf).len() && !(offset <= k < end) ==> final(buf)@[k] == old(
            buf,
        )@[k],
{
    match req {
        Request::Step { actions, patch } => {
            let c1 = write_byte(buf, offset, 0);
            let ghost b1 = buf@;
            let c2 = write_vals(buf, c1, actions);
            let ghost b2 = buf@;
            let end = write_patch(buf, c2, patch, cfg.patch_enabled);
            proof {
                assert(forall|k: int| offset <= k < c1 ==> buf@[k] == b1[k]);
                lemma_frame_subrange(b1, buf@, offset as int, c1 as int);
                lemma_frame_subrange(b2, buf@, c1 as int, c2 as int);
                lemma_cat_subranges(buf@, c1 as int, c2 as int, end as int);
                lemma_cat_subranges(buf@, offset as int, c1 as int, end as int);
                assert(buf@.subrange(offset as int, end as int) =~= request_bytes(req@, cfg));
            }
            end
        },
        Request::Reset { patch } => {
            let c1 = write_byte(buf, offset, 1);
            let ghost b1 = buf@;
            let end = write_patch(buf, c1, patch, cfg.patch_enabled);
            proof {
                lemma_frame_subrange(b1, buf@, offset as int, c1 as int);
                lemma_cat_subranges(buf@, offset as int, c1 as int, end as int);
                assert(buf@.subrange(offset as int, end as int) =~= request_bytes(req@, cfg));
            }
            end
        },
        Request::SetState { state, patch } => {
            let c1 = write_byte(buf, offset, 2);
            let ghost b1 = buf@;
            let c2 = write_val(buf, c1, state);
            let ghost b2 = buf@;
            let end = write_patch(buf, c2, patch, cfg.patch_enabled);
            proof {
                assert(forall|k: int| offset <= k < c1 ==> buf@[k] == b1[k]);
                lemma_frame_subrange(b1, buf@, offset as int, c1 as int);
                lemma_frame_subrange(b2, buf@, c1 as int, c2 as int);
                lemma_cat_subranges(buf@, c1 as int, c2 as int, end as int);
                lemma_cat_subranges(buf@, offset as int, c1 as int, end as int);
                assert(buf@.subrange(offset as int, end as int) =~= request_bytes(req@, cfg));
            }
            end
        },
    }
}

/// Reads an environment-action request at `offset`, against the current
/// roster size; errs exactly when the spec-level read does. A step request
/// reads one action per agent; a set-state request parses only when state
/// transfer is configured.
pub fn read_request(buf: &Vec<u8>, offset: usize, cfg: Config, n_agents: usize) -> (r: Option<
    (Request, usize),
>)
    ensures
        match dec_request(buf@, offset as int, cfg, n_agents as nat) {
            Some((m, end)) => r is Some && r.unwrap().0@ == m && r.unwrap().1 == end,
            None => r is None,
        },
{
    if offset >= buf.len() {
        return None;
    }
    let tag = buf[offset];
    if tag == 0 {
        match read_vals(buf, offset + 1, n_agents) {
            Some((actions, mid)) => match read_patch(buf, mid, cfg.patch_enabled) {
                Some((patch, end)) => Some((Request::Step { actions, patch }, end)),
                None => None,
            },
            None => None,
        }
    } else if tag == 1 {
        match read_patch(buf, offset + 1, cfg.patch_enabled) {
            Some((patch, end)) => Some((Request::Reset { patch }, end)),
            None => None,
        }
    } else if tag == 2 && cfg.state_enabled {
        match read_val(buf, offset + 1) {
            Some((state, mid)) => match read_patch(buf, mid, cfg.patch_enabled) {
                Some((patch, end)) => Some((Request::SetState { state, patch }, end)),
                None => None,
            },
            None => None,
        }
    } else {
        None
    }
}

/// Writes one agent's slice of a step response at `offset`.
pub fn write_step_row(buf: &mut Vec<u8>, offset: usize, row: &StepRow, emit_id: bool) -> (end:
    usize)
    requires
        offset + step_row_bytes(row@, emit_id).len() <= old(buf).len(),
    ensures
        end == offset + step_row_bytes(row@, emit_id).len(),
        final(buf).len() == old(buf).len(),
        final(buf)@.subrange(offset as int, end as int) == step_row_bytes(row@, emit_id),
        forall|k: int| 0 <= k < old(buf).len() && !(offset <= k < end) ==> final(buf)@[k] == old(
            buf,
        )@[k],
{
    let c1 = if emit_id {
        write_val(buf, offset, &row.agent_id)
    } else {
        offset
    };
    let ghost b1 = buf@;
    let c2 = write_val(buf, c1, &row.obs);
    let ghost b2 = buf@;
    let c3 = write_val(buf, c2, &row.reward);
    let ghost b3 = buf@;
    let c4 = write_bool(buf, c3, row.terminated);
    let ghost b4 = buf@;
    let end = write_bool(buf, c4, row.truncated);
    proof {
        let idb = if emit_id {
            val_bytes(row.agent_id@)
        } else {
            Seq::<u8>::empty()
        };
        assert(b1.subrange(offset as int, c1 as int) =~= idb);
        lemma_frame_subrange(b1, buf@, offset as int, c1 as int);
        lemma_frame_subrange(b2, buf@, c1 as int, c2 as int);
        lemma_frame_subrange(b3, buf@, c2 as int, c3 as int);
        lemma_frame_subrange(b4, buf@, c3 as int, c4 as int);
        lemma_cat_subranges(buf@, offset as int, c1 as int, c2 as int);
        lemma_cat_subranges(buf@, offset as int, c2 as int, c3 as int);
        lemma_cat_subranges(buf@, offset as int, c3 as int, c4 as int);
        lemma_cat_subranges(buf@, offset as int, c4 as int, end as int);
        assert(buf@.subrange(offset as int, end as int) =~= step_row_bytes(row@, emit_id));
    }
    end
}

/// Writes the per-agent run of a step response at `offset`, in the order
/// given (roster order).
pub fn write_step_rows(buf: &mut Vec<u8>, offset: usize, rows: &Vec<StepRow>, emit_id: bool) -> (end:
    usize)
    requires
        offset + step_rows_bytes(rows_view(rows@), emit_id).len() <= old(buf).len(),
    ensures
        end == offset + step_rows_bytes(rows_view(rows@), emit_id).len(),
        final(buf).len() == old(buf).len(),
        final(buf)@.subrange(offset as int, end as int) == step_rows_bytes(
            rows_view(rows@),
            emit_id,
        ),
        forall|k: int| 0 <= k < old(buf).len() && !(offset <= k < end) ==> final(buf)@[k] == old(
            buf,
        )@[k],
{
    let ghost full = rows_view(rows@);
    let ghost total = step_rows_bytes(full, emit_id).len() as int;
    let n = rows.len();
    let mut cur: usize = offset;
    let mut i: usize = 0;
    while i < n
        invariant
            n == rows.len(),
            0 <= i <= n,
            full == rows_view(rows@),
            total == step_rows_bytes(full, emit_id).len(),
            offset + total <= buf.len(),
            buf.len() == old(buf).len(),
            cur == offset + step_rows_bytes(full.take(i as int), emit_id).len(),
            buf@.subrange(offset as int, cur as int) == step_rows_bytes(
                full.take(i as int),
                emit_id,
            ),
            forall|k: int|
                0 <= k < old(buf).len() && !(offset <= k < offset + total) ==> buf@[k] == old(
                    buf,
                )@[k],
        decreases n - i,
    {
        proof {
            lemma_step_rows_bytes_snoc(full.take(i as int), full[i as int], emit_id);
            assert(full.take(i as int).push(full[i as int]) =~= full.take(i + 1));
            assert(full.take(i + 1) + full.skip(i + 1) =~= full);
            lemma_step_rows_bytes_cat(full.take(i + 1), full.skip(i + 1), emit_id);
        }
        let ghost pre = buf@;
        let next = write_step_row(buf, cur, &rows[i], emit_id);
        proof {
            lemma_frame_subrange(pre, buf@, offset as int, cur as int);
            lemma_cat_subranges(buf@, offset as int, cur as int, next as int);
        }
        cur = next;
        i = i + 1;
    }
    proof {
        assert(full.take(n as int) =~= full);
    }
    cur
}

/// Writes a whole step response — per-agent fields, then the shared-info
/// dictionary when configured — at `offset`. Never writes a leading agent
/// count.
pub fn write_step_response(
    buf: &mut Vec<u8>,
    offset: usize,
    rows: &Vec<StepRow>,
    cfg: Config,
    info: &Vec<(Vec<u8>, Vec<u8>)>,
) -> (end: usize)
    requires
        offset + step_response_bytes(rows_view(rows@), cfg, pairs_view(info@)).len() <= old(
            buf,
        ).len(),
    ensures
        end == offset + step_response_bytes(rows_view(rows@), cfg, pairs_view(info@)).len(),
        final(buf).len() == old(buf).len(),
        final(buf)@.subrange(offset as int, end as int) == step_response_bytes(
            rows_view(rows@),
            cfg,
            pairs_view(info@),
        ),
        forall|k: int| 0 <= k < old(buf).len() && !(offset <= k < end) ==> final(buf)@[k] == old(
            buf,
        )@[k],
{
    let mid = write_step_rows(buf, offset, rows, cfg.resend_ids_every_step);
    if cfg.shared_info_enabled {
        let ghost pre = buf@;
        let end = write_dict(buf, mid, info);
        proof {
            lemma_frame_subrange(pre, buf@, offset as int, mid as int);
            lemma_cat_subranges(buf@, offset as int, mid as int, end as int);
        }
        end
    } else {
        proof {
            assert(buf@.subrange(offset as int, mid as int) + Seq::<u8>::empty()
                =~= buf@.subrange(offset as int, mid as int));
        }
        mid
    }
}

/// Reads a step response at `offset` against the last-known roster: when
/// identifiers are not re-emitted, each returned row takes its identifier
/// from the roster, in roster order. Errs exactly when the spec-level read
/// does.
#[verifier::rlimit(100)]
pub fn read_step_response(buf: &Vec<u8>, offset: usize, roster: &Vec<Vec<u8>>, cfg: Config) -> (r:
    Option<(Vec<StepRow>, Vec<(Vec<u8>, Vec<u8>)>, usize)>)
    ensures
        match dec_step_response(buf@, offset as int, vals_view(roster@), cfg) {
            Some((rows, info, end)) => r is Some && rows_view(r.unwrap().0@) == rows
                && pairs_view(r.unwrap().1@) == info && r.unwrap().2 == end,
            None => r is None,
        },
{
    let ghost ros = vals_view(roster@);
    let blen = buf.len();
    proof {
        assert(buf@.len() == blen);
    }
    let emit_id = cfg.resend_ids_every_step;
    let n = roster.len();
    let mut out: Vec<StepRow> = Vec::new();
    let mut cur: usize = offset;
    let mut i: usize = 0;
    proof {
        assert(ros.skip(0) =~= ros);
        let d = dec_step_rows(buf@, offset as int, ros, emit_id);
        if d is Some {
            let (rows, end) = d.unwrap();
            assert(rows_view(out@) + rows =~= rows);
        }
    }
    while i < n
        invariant
            n == roster.len(),
            ros == vals_view(roster@),
            emit_id == cfg.resend_ids_every_step,
            buf@.len() == blen,
            0 <= i <= n,
            out.len() == i,
            match dec_step_rows(buf@, cur as int, ros.skip(i as int), emit_id) {
                Some((rows, end)) => dec_step_rows(buf@, offset as int, ros, emit_id) == Some(
                    (rows_view(out@) + rows, end),
                ),
                None => dec_step_rows(buf@, offset as int, ros, emit_id) is None,
            },
        decreases n - i,
    {
        proof {
            assert(ros.skip(i as int).len() == n - i);
            assert(ros.skip(i as int).drop_first() =~= ros.skip(i + 1));
            assert(ros.skip(i as int)[0] == roster@[i as int]@);
        }
        let id_step: Option<(Vec<u8>, usize)> = if emit_id {
            read_val(buf, cur)
        } else {
            Some((copy_bytes(&roster[i]), cur))
        };
        match id_step {
            Some((agent_id, j0)) => {
                match read_val(buf, j0) {
                    Some((obs, j1)) => match read_val(buf, j1) {
                        Some((reward, j2)) => match read_bool(buf, j2) {
                            Some((terminated, j3)) => match read_bool(buf, j3) {
                                Some((truncated, j4)) => {
                                    let row = StepRow {
                                        agent_id,
                                        obs,
                                        reward,
                                        terminated,
                                        truncated,
                                    };
                                    proof {
                                        let sub = ros.skip(i as int);
                                        if emit_id {
                                            assert(dec_val(buf@, cur as int) == Some(
                                                (agent_id@, j0 as int),
                                            ));
                                        } else {
                                            assert(agent_id@ == sub[0]);
                                        }
                                        assert(dec_val(buf@, j0 as int) == Some(
                                            (obs@, j1 as int),
                                        ));
                                        assert(dec_val(buf@, j1 as int) == Some(
                                            (reward@, j2 as int),
                                        ));
                                        assert(dec_bool(buf@, j2 as int) == Some(
                                            (terminated, j3 as int),
                                        ));
                                        assert(dec_bool(buf@, j3 as int) == Some(
                                            (truncated, j4 as int),
                                        ));
                                        assert(row@ == SpecStepRow {
                                            agent_id: agent_id@,
                                            obs: obs@,
                                            reward: reward@,
                                            terminated,
                                            truncated,
                                        });
                                        let tail = dec_step_rows(
                                            buf@,
                                            j4 as int,
                                            ros.skip(i + 1),
                                            emit_id,
                                        );
                                        if tail is Some {
                                            let (rows, end) = tail.unwrap();
                                            assert(dec_step_rows(buf@, cur as int, sub, emit_id)
                                                == Some((seq![row@] + rows, end)));
                                            assert(rows_view(out@) + (seq![row@] + rows)
                                                =~= rows_view(out@.push(row)) + rows);
                                        } else {
                                            assert(dec_step_rows(buf@, cur as int, sub, emit_id)
                                                is None);
                                        }
                                    }
                                    out.push(row);
                                    cur = j4;
                                    i = i + 1;
                                },
                                None => {
                                    return None;
                                },
                            },
                            None => {
                                return None;
                            },
                        },
                        None => {
                            return None;
                        },
                    },
                    None => {
                        return None;
                    },
                }
            },
            None => {
                return None;
            },
        }
    }
    proof {
        assert(ros.skip(n as int) =~= Seq::<Seq<u8>>::empty());
        assert(rows_view(out@) + Seq::<SpecStepRow>::empty() =~= rows_view(out@));
    }
    match read_info_part(buf, cur, cfg.shared_info_enabled) {
        Some((info, end)) => Some((out, info, end)),
        None => None,
    }
}

/// Reads the trailing shared-info dictionary when configured; reads
/// nothing otherwise.
pub fn read_info_part(buf: &Vec<u8>, offset: usize, enabled: bool) -> (r: Option<
    (Vec<(Vec<u8>, Vec<u8>)>, usize),
>)
    ensures
        match dec_info_part(buf@, offset as int, enabled) {
            Some((info, end)) => r is Some && pairs_view(r.unwrap().0@) == info && r.unwrap().1
                == end,
            None => r is None,
        },
{
    if enabled {
        read_dict(buf, offset)
    } else {
        proof {
            assert(pairs_view(Seq::<(Vec<u8>, Vec<u8>)>::empty()) =~= Seq::<
                (Seq<u8>, Seq<u8>),
            >::empty());
        }
        Some((Vec::new(), offset))
    }
}

/// Writes a whole episode-boundary response — leading agent count, each
/// agent's identifier and observation, then the shared-info dictionary when
/// configured — at `offset`. Identifiers are always written, whatever the
/// re-emission setting.
pub fn write_episode_response(
    buf: &mut Vec<u8>,
    offset: usize,
    agents: &Vec<(Vec<u8>, Vec<u8>)>,
    cfg: Config,
    info: &Vec<(Vec<u8>, Vec<u8>)>,
) -> (end: usize)
    requires
        offset + episode_response_bytes(pairs_view(agents@), cfg, pairs_view(info@)).len() <= old(
            buf,
        ).len(),
    ensures
        end == offset + episode_response_bytes(pairs_view(agents@), cfg, pairs_view(info@)).len(),
        final(buf).len() == old(buf).len(),
        final(buf)@.subrange(offset as int, end as int) == episode_response_bytes(
            pairs_view(agents@),
            cfg,
            pairs_view(info@),
        ),
        forall|k: int| 0 <= k < old(buf).len() && !(offset <= k < end) ==> final(buf)@[k] == old(
            buf,
        )@[k],
{
    let mid = write_dict(buf, offset, agents);
    if cfg.shared_info_enabled {
        let ghost pre = buf@;
        let end = write_dict(buf, mid, info);
        proof {
            lemma_frame_subrange(pre, buf@, offset as int, mid as int);
            lemma_cat_subranges(buf@, offset as int, mid as int, end as int);
        }
        end
    } else {
        proof {
            assert(buf@.subrange(offset as int, mid as int) + Seq::<u8>::empty()
                =~= buf@.subrange(offset as int, mid as int));
        }
        mid
    }
}

/// Reads an episode-boundary response at `offset`; errs exactly when the
/// spec-level read does.
pub fn read_episode_response(buf: &Vec<u8>, offset: usize, cfg: Config) -> (r: Option<
    (Vec<(Vec<u8>, Vec<u8>)>, Vec<(Vec<u8>, Vec<u8>)>, usize),
>)
    ensures
        match dec_episode_response(buf@, offset as int, cfg) {
            Some((agents, info, end)) => r is Some && pairs_view(r.unwrap().0@) == agents
                && pairs_view(r.unwrap().1@) == info && r.unwrap().2 == end,
            None => r is None,
        },
{
    match read_dict(buf, offset) {
        Some((agents, mid)) => match read_info_part(buf, mid, cfg.shared_info_enabled) {
            Some((info, end)) => Some((agents, info, end)),
            None => None,
        },
        None => None,
    }
}

/// Writes the shape-query response — the observation-space descriptor,
/// then the action-space descriptor — at `offset`.
pub fn write_shapes_response(
    buf: &mut Vec<u8>,
    offset: usize,
    obs_space: &Vec<u8>,
    action_space: &Vec<u8>,
) -> (end: usize)
    requires
        offset + shapes_response_bytes(obs_space@, action_space@).len() <= old(buf).len(),
    ensures
        end == offset + shapes_response_bytes(obs_space@, action_space@).len(),
        final(buf).len() == old(buf).len(),
        final(buf)@.subrange(offset as int, end as int) == shapes_response_bytes(
            obs_space@,
            action_space@,
        ),
        forall|k: int| 0 <= k < old(buf).len() && !(offset <= k < end) ==> final(buf)@[k] == old(
            buf,
        )@[k],
{
    let mid = write_val(buf, offset, obs_space);
    let ghost pre = buf@;
    let end = write_val(buf, mid, action_space);
    proof {
        lemma_frame_subrange(pre, buf@, offset as int, mid as int);
        lemma_cat_subranges(buf@, offset as int, mid as int, end as int);
    }
    end
}

/// Reads the shape-query response at `offset`; errs exactly when the
/// spec-level read does.
pub fn read_shapes_response(buf: &Vec<u8>, offset: usize) -> (r: Option<(Vec<u8>, Vec<u8>, usize)>)
    ensures
        match dec_shapes_response(buf@, offset as int) {
            Some((o, a, end)) => r is Some && r.unwrap().0@ == o && r.unwrap().1@ == a
                && r.unwrap().2 == end,
            None => r is None,
        },
{
    match read_val(buf, offset) {
        Some((obs_space, mid)) => match read_val(buf, mid) {
            Some((action_space, end)) => Some((obs_space, action_space, end)),
            None => None,
        },
        None => None,
    }
}


/// The wire length of a run of key-value pairs; `None` where it exceeds
/// the address space, in which case no buffer can hold it.
pub fn pairs_wire_len(ps: &Vec<(Vec<u8>, Vec<u8>)>) -> (r: Option<usize>)
    ensures
        match r {
            Some(l) => l == pairs_bytes(pairs_view(ps@)).len(),
            None => pairs_bytes(pairs_view(ps@)).len() > usize::MAX,
        },
{
    let ghost pv = pairs_view(ps@);
    let n = ps.len();
    let mut acc: usize = 0;
    let mut i: usize = 0;
    proof {
        assert(pv.take(0) =~= Seq::<(Seq<u8>, Seq<u8>)>::empty());
    }
    while i < n
        invariant
            n == ps.len(),
            pv == pairs_view(ps@),
            0 <= i <= n,
            acc == pairs_bytes(pv.take(i as int)).len(),
        decreases n - i,
    {
        proof {
            lemma_pairs_bytes_snoc(pv.take(i as int), pv[i as int]);
            assert(pv.take(i as int).push(pv[i as int]) =~= pv.take(i + 1));
            assert(pv.take(i + 1) + pv.skip(i + 1) =~= pv);
            lemma_pairs_bytes_cat(pv.take(i + 1), pv.skip(i + 1));
            assert(pv[i as int] == (ps@[i as int].0@, ps@[i as int].1@));
        }
        let k_len = ps[i].0.len();
        let v_len = ps[i].1.len();
        let step = match acc.checked_add(16) {
            Some(a) => match a.checked_add(k_len) {
                Some(b) => b.checked_add(v_len),
                None => None,
            },
            None => None,
        };
        match step {
            Some(next) => {
                acc = next;
                i = i + 1;
            },
            None => {
                return None;
            },
        }
    }
    proof {
        assert(pv.take(n as int) =~= pv);
    }
    Some(acc)
}

/// The wire length of the per-agent run of a step response; `None` where
/// it exceeds the address space.
pub fn step_rows_wire_len(rows: &Vec<StepRow>, emit_id: bool) -> (r: Option<usize>)
    ensures
        match r {
            Some(l) => l == step_rows_bytes(rows_view(rows@), emit_id).len(),
            None => step_rows_bytes(rows_view(rows@), emit_id).len() > usize::MAX,
        },
{
    let ghost full = rows_view(rows@);
    let n = rows.len();
    let mut acc: usize = 0;
    let mut i: usize = 0;
    proof {
        assert(full.take(0) =~= Seq::<SpecStepRow>::empty());
    }
    while i < n
        invariant
            n == rows.len(),
            full == rows_view(rows@),
            0 <= i <= n,
            acc == step_rows_bytes(full.take(i as int), emit_id).len(),
        decreases n - i,
    {
        proof {
            lemma_step_rows_bytes_snoc(full.take(i as int), full[i as int], emit_id);
            assert(full.take(i as int).push(full[i as int]) =~= full.take(i + 1));
            assert(full.take(i + 1) + full.skip(i + 1) =~= full);
            lemma_step_rows_bytes_cat(full.take(i + 1), full.skip(i + 1), emit_id);
            assert(full[i as int] == rows@[i as int]@);
        }
        let id_len = if emit_id {
            match 8usize.checked_add(rows[i].agent_id.len()) {
                Some(a) => Some(a),
                None => None,
            }
        } else {
            Some(0)
        };
        let step = match id_len {
            Some(a) => match a.checked_add(18) {
                Some(b) => match b.checked_add(rows[i].obs.len()) {
                    Some(c) => match c.checked_add(rows[i].reward.len()) {
                        Some(d) => acc.checked_add(d),
                        None => None,
                    },
                    None => None,
                },
                None => None,
            },
            None => None,
        };
        match step {
            Some(next) => {
                acc = next;
                i = i + 1;
            },
            None => {
                return None;
            },
        }
    }
    proof {
        assert(full.take(n as int) =~= full);
    }
    Some(acc)
}

} // verus!
