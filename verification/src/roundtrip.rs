//! Round-trip laws of the codec: a message encoded by one side and placed
//! anywhere inside a larger buffer decodes on the other side to exactly the
//! original, for every message kind and every framing configuration. These
//! are what lets the coordinator and the worker share one unframed buffer:
//! the shape of the bytes is fully determined by the configuration and the
//! roster, and decoding inverts encoding.

use vstd::prelude::*;
use crate::bytes::{
    val_bytes, bool_byte, u64_le, dec_u64, lemma_dec_val_of_enc, lemma_dec_bool_of_enc,
    lemma_dec_u64_of_enc,
};
use crate::wire::{
    Header, Config, SpecRequest, SpecStepRow, header_bytes, dec_header, vals_bytes, dec_vals,
    pairs_bytes, dec_pairs, dict_bytes, dec_dict, patch_part, dec_patch, request_bytes,
    dec_request, step_row_bytes, step_rows_bytes, dec_step_rows, info_part,
    step_response_bytes, dec_step_response, episode_response_bytes, dec_episode_response,
    shapes_response_bytes, dec_shapes_response, vals_wf, pairs_wf, patch_wf, request_wf, val_wf,
    step_rows_wf,
};

verus! {

/// A buffer that holds `a + b` at `i` holds `a` at `i` and `b` right after.
pub proof fn lemma_split_cat(s: Seq<u8>, i: int, a: Seq<u8>, b: Seq<u8>)
    requires
        0 <= i,
        i + a.len() + b.len() <= s.len(),
        s.subrange(i, i + a.len() + b.len()) == a + b,
    ensures
        s.subrange(i, i + a.len()) == a,
        s.subrange(i + a.len(), i + a.len() + b.len()) == b,
{
    let w = a + b;
    assert(s.subrange(i, i + a.len()) =~= w.subrange(0, a.len() as int));
    assert(w.subrange(0, a.len() as int) =~= a);
    assert(s.subrange(i + a.len(), i + a.len() + b.len()) =~= w.subrange(
        a.len() as int,
        w.len() as int,
    ));
    assert(w.subrange(a.len() as int, w.len() as int) =~= b);
}

/// A message header decodes to the header it encoded.
pub proof fn lemma_dec_header_of_enc(s: Seq<u8>, i: int, h: Header)
    requires
        0 <= i,
        i + 1 <= s.len(),
        s.subrange(i, i + 1) == header_bytes(h),
    ensures
        dec_header(s, i) == Some((h, i + 1)),
{
    assert(s[i] == header_bytes(h)[0]);
}

/// A run of values decodes, against its own count, to the values encoded.
pub proof fn lemma_dec_vals_of_enc(s: Seq<u8>, i: int, vs: Seq<Seq<u8>>)
    requires
        0 <= i,
        vals_wf(vs),
        i + vals_bytes(vs).len() <= s.len(),
        s.subrange(i, i + vals_bytes(vs).len()) == vals_bytes(vs),
    ensures
        dec_vals(s, i, vs.len()) == Some((vs, i + vals_bytes(vs).len())),
    decreases vs.len(),
{
    if vs.len() == 0 {
        assert(vs =~= Seq::<Seq<u8>>::empty());
    } else {
        let head = vs[0];
        let rest = vs.drop_first();
        lemma_split_cat(s, i, val_bytes(head), vals_bytes(rest));
        lemma_dec_val_of_enc(s, i, head);
        let j = i + val_bytes(head).len();
        lemma_dec_vals_of_enc(s, j, rest);
        assert(seq![head] + rest =~= vs);
    }
}

/// A run of key-value pairs decodes, against its own count, to the pairs
/// encoded.
pub proof fn lemma_dec_pairs_of_enc(s: Seq<u8>, i: int, ps: Seq<(Seq<u8>, Seq<u8>)>)
    requires
        0 <= i,
        pairs_wf(ps),
        i + pairs_bytes(ps).len() <= s.len(),
        s.subrange(i, i + pairs_bytes(ps).len()) == pairs_bytes(ps),
    ensures
        dec_pairs(s, i, ps.len()) == Some((ps, i + pairs_bytes(ps).len())),
    decreases ps.len(),
{
    if ps.len() == 0 {
        assert(ps =~= Seq::<(Seq<u8>, Seq<u8>)>::empty());
    } else {
        let (k, v) = ps[0];
        let rest = ps.drop_first();
        assert(pairs_bytes(ps) =~= val_bytes(k) + (val_bytes(v) + pairs_bytes(rest)));
        lemma_split_cat(s, i, val_bytes(k), val_bytes(v) + pairs_bytes(rest));
        lemma_dec_val_of_enc(s, i, k);
        let j = i + val_bytes(k).len();
        lemma_split_cat(s, j, val_bytes(v), pairs_bytes(rest));
        lemma_dec_val_of_enc(s, j, v);
        let j2 = j + val_bytes(v).len();
        lemma_dec_pairs_of_enc(s, j2, rest);
        assert(pairs_wf(rest));
        assert(seq![(k, v)] + rest =~= ps);
    }
}

/// A dictionary decodes to the entries encoded, in their order.
pub proof fn lemma_dec_dict_of_enc(s: Seq<u8>, i: int, ps: Seq<(Seq<u8>, Seq<u8>)>)
    requires
        0 <= i,
        pairs_wf(ps),
        i + dict_bytes(ps).len() <= s.len(),
        s.subrange(i, i + dict_bytes(ps).len()) == dict_bytes(ps),
    ensures
        dec_dict(s, i) == Some((ps, i + dict_bytes(ps).len())),
{
    lemma_split_cat(s, i, u64_le(ps.len() as u64), pairs_bytes(ps));
    lemma_dec_u64_of_enc(s, i, ps.len() as u64);
    lemma_dec_pairs_of_enc(s, i + 8, ps);
}

/// An optional patch field decodes to the patch encoded, under the same
/// configuration.
pub proof fn lemma_dec_patch_of_enc(
    s: Seq<u8>,
    i: int,
    patch: Option<Seq<(Seq<u8>, Seq<u8>)>>,
    enabled: bool,
)
    requires
        0 <= i,
        patch_wf(patch, enabled),
        i + patch_part(patch, enabled).len() <= s.len(),
        s.subrange(i, i + patch_part(patch, enabled).len()) == patch_part(patch, enabled),
    ensures
        dec_patch(s, i, enabled) == Some((patch, i + patch_part(patch, enabled).len())),
{
    if enabled {
        match patch {
            Some(ps) => {
                lemma_split_cat(s, i, bool_byte(true), dict_bytes(ps));
                lemma_dec_bool_of_enc(s, i, true);
                lemma_dec_dict_of_enc(s, i + 1, ps);
            },
            None => {
                lemma_dec_bool_of_enc(s, i, false);
            },
        }
    }
}

/// Round trip of requests: a request encoded under a configuration and a
/// roster size decodes, under the same configuration and size, to itself.
pub proof fn lemma_dec_request_of_enc(s: Seq<u8>, i: int, r: SpecRequest, cfg: Config, n: nat)
    requires
        0 <= i,
        request_wf(r, cfg, n),
        i + request_bytes(r, cfg).len() <= s.len(),
        s.subrange(i, i + request_bytes(r, cfg).len()) == request_bytes(r, cfg),
    ensures
        dec_request(s, i, cfg, n) == Some((r, i + request_bytes(r, cfg).len())),
{
    match r {
        SpecRequest::Step { actions, patch } => {
            let pp = patch_part(patch, cfg.patch_enabled);
            assert(request_bytes(r, cfg) =~= seq![0u8] + (vals_bytes(actions) + pp));
            lemma_split_cat(s, i, seq![0u8], vals_bytes(actions) + pp);
            assert(s[i] == s.subrange(i, i + 1)[0]);
            lemma_split_cat(s, i + 1, vals_bytes(actions), pp);
            lemma_dec_vals_of_enc(s, i + 1, actions);
            lemma_dec_patch_of_enc(
                s,
                i + 1 + vals_bytes(actions).len(),
                patch,
                cfg.patch_enabled,
            );
        },
        SpecRequest::Reset { patch } => {
            let pp = patch_part(patch, cfg.patch_enabled);
            lemma_split_cat(s, i, seq![1u8], pp);
            assert(s[i] == s.subrange(i, i + 1)[0]);
            lemma_dec_patch_of_enc(s, i + 1, patch, cfg.patch_enabled);
        },
        SpecRequest::SetState { state, patch } => {
            let pp = patch_part(patch, cfg.patch_enabled);
            assert(request_bytes(r, cfg) =~= seq![2u8] + (val_bytes(state) + pp));
            lemma_split_cat(s, i, seq![2u8], val_bytes(state) + pp);
            assert(s[i] == s.subrange(i, i + 1)[0]);
            lemma_split_cat(s, i + 1, val_bytes(state), pp);
            lemma_dec_val_of_enc(s, i + 1, state);
            lemma_dec_patch_of_enc(s, i + 1 + val_bytes(state).len(), patch, cfg.patch_enabled);
        },
    }
}

/// The per-agent run of a step response decodes, against the roster it was
/// encoded for, to the rows encoded — taking identifiers from the wire
/// when they are re-emitted and from the roster when they are not.
#[verifier::rlimit(100)]
pub proof fn lemma_dec_step_rows_of_enc(
    s: Seq<u8>,
    i: int,
    rows: Seq<SpecStepRow>,
    roster: Seq<Seq<u8>>,
    emit_id: bool,
)
    requires
        0 <= i,
        step_rows_wf(rows),
        rows.len() == roster.len(),
        forall|k: int| 0 <= k < rows.len() ==> (#[trigger] rows[k]).agent_id == roster[k],
        i + step_rows_bytes(rows, emit_id).len() <= s.len(),
        s.subrange(i, i + step_rows_bytes(rows, emit_id).len()) == step_rows_bytes(rows, emit_id),
    ensures
        dec_step_rows(s, i, roster, emit_id) == Some(
            (rows, i + step_rows_bytes(rows, emit_id).len()),
        ),
    decreases rows.len(),
{
    if rows.len() == 0 {
        assert(rows =~= Seq::<SpecStepRow>::empty());
    } else {
        let row = rows[0];
        let rest = rows.drop_first();
        let rb = step_row_bytes(row, emit_id);
        lemma_split_cat(s, i, rb, step_rows_bytes(rest, emit_id));
        let idb = if emit_id {
            val_bytes(row.agent_id)
        } else {
            Seq::<u8>::empty()
        };
        assert(rb =~= idb + (val_bytes(row.obs) + (val_bytes(row.reward) + (bool_byte(
            row.terminated,
        ) + bool_byte(row.truncated)))));
        lemma_split_cat(
            s,
            i,
            idb,
            val_bytes(row.obs) + (val_bytes(row.reward) + (bool_byte(row.terminated) + bool_byte(
                row.truncated,
            ))),
        );
        let j0 = i + idb.len();
        if emit_id {
            lemma_dec_val_of_enc(s, i, row.agent_id);
        }
        lemma_split_cat(
            s,
            j0,
            val_bytes(row.obs),
            val_bytes(row.reward) + (bool_byte(row.terminated) + bool_byte(row.truncated)),
        );
        lemma_dec_val_of_enc(s, j0, row.obs);
        let j1 = j0 + val_bytes(row.obs).len();
        lemma_split_cat(
            s,
            j1,
            val_bytes(row.reward),
            bool_byte(row.terminated) + bool_byte(row.truncated),
        );
        lemma_dec_val_of_enc(s, j1, row.reward);
        let j2 = j1 + val_bytes(row.reward).len();
        lemma_split_cat(s, j2, bool_byte(row.terminated), bool_byte(row.truncated));
        lemma_dec_bool_of_enc(s, j2, row.terminated);
        lemma_dec_bool_of_enc(s, j2 + 1, row.truncated);
        let j4 = j2 + 2;
        assert(step_rows_wf(rest));
        assert(forall|k: int|
            0 <= k < rest.len() ==> (#[trigger] rest[k]).agent_id == roster.drop_first()[k]);
        lemma_dec_step_rows_of_enc(s, j4, rest, roster.drop_first(), emit_id);
        assert(seq![row] + rest =~= rows);
    }
}

/// Round trip of step responses, shared-info tail included.
pub proof fn lemma_dec_step_response_of_enc(
    s: Seq<u8>,
    i: int,
    rows: Seq<SpecStepRow>,
    roster: Seq<Seq<u8>>,
    cfg: Config,
    info: Seq<(Seq<u8>, Seq<u8>)>,
)
    requires
        0 <= i,
        step_rows_wf(rows),
        pairs_wf(info),
        rows.len() == roster.len(),
        forall|k: int| 0 <= k < rows.len() ==> (#[trigger] rows[k]).agent_id == roster[k],
        !cfg.shared_info_enabled ==> info == Seq::<(Seq<u8>, Seq<u8>)>::empty(),
        i + step_response_bytes(rows, cfg, info).len() <= s.len(),
        s.subrange(i, i + step_response_bytes(rows, cfg, info).len()) == step_response_bytes(
            rows,
            cfg,
            info,
        ),
    ensures
        dec_step_response(s, i, roster, cfg) == Some(
            (rows, info, i + step_response_bytes(rows, cfg, info).len()),
        ),
{
    let ab = step_rows_bytes(rows, cfg.resend_ids_every_step);
    let ib = info_part(info, cfg.shared_info_enabled);
    lemma_split_cat(s, i, ab, ib);
    lemma_dec_step_rows_of_enc(s, i, rows, roster, cfg.resend_ids_every_step);
    if cfg.shared_info_enabled {
        lemma_dec_dict_of_enc(s, i + ab.len(), info);
    }
}

/// Round trip of episode-boundary responses, leading count and identifier
/// list included.
pub proof fn lemma_dec_episode_response_of_enc(
    s: Seq<u8>,
    i: int,
    agents: Seq<(Seq<u8>, Seq<u8>)>,
    cfg: Config,
    info: Seq<(Seq<u8>, Seq<u8>)>,
)
    requires
        0 <= i,
        pairs_wf(agents),
        pairs_wf(info),
        !cfg.shared_info_enabled ==> info == Seq::<(Seq<u8>, Seq<u8>)>::empty(),
        i + episode_response_bytes(agents, cfg, info).len() <= s.len(),
        s.subrange(i, i + episode_response_bytes(agents, cfg, info).len())
            == episode_response_bytes(agents, cfg, info),
    ensures
        dec_episode_response(s, i, cfg) == Some(
            (agents, info, i + episode_response_bytes(agents, cfg, info).len()),
        ),
{
    let db = dict_bytes(agents);
    let ib = info_part(info, cfg.shared_info_enabled);
    lemma_split_cat(s, i, db, ib);
    lemma_dec_dict_of_enc(s, i, agents);
    if cfg.shared_info_enabled {
        lemma_dec_dict_of_enc(s, i + db.len(), info);
    }
}

/// Round trip of the shape-query response.
pub proof fn lemma_dec_shapes_of_enc(s: Seq<u8>, i: int, obs_space: Seq<u8>, action_space: Seq<u8>)
    requires
        0 <= i,
        val_wf(obs_space),
        val_wf(action_space),
        i + shapes_response_bytes(obs_space, action_space).len() <= s.len(),
        s.subrange(i, i + shapes_response_bytes(obs_space, action_space).len())
            == shapes_response_bytes(obs_space, action_space),
    ensures
        dec_shapes_response(s, i) == Some(
            (obs_space, action_space, i + shapes_response_bytes(obs_space, action_space).len()),
        ),
{
    lemma_split_cat(s, i, val_bytes(obs_space), val_bytes(action_space));
    lemma_dec_val_of_enc(s, i, obs_space);
    lemma_dec_val_of_enc(s, i + val_bytes(obs_space).len(), action_space);
}


/// An episode-boundary response — the reply to every reset or state-set,
/// and the initial snapshot — always begins with the agent count, whatever
/// the identifier re-emission setting: its first 8 bytes decode to the
/// roster size.
pub proof fn lemma_episode_response_leading_count(
    agents: Seq<(Seq<u8>, Seq<u8>)>,
    cfg: Config,
    info: Seq<(Seq<u8>, Seq<u8>)>,
)
    requires
        agents.len() <= u64::MAX,
    ensures
        episode_response_bytes(agents, cfg, info).len() >= 8,
        dec_u64(episode_response_bytes(agents, cfg, info), 0) == Some((agents.len() as u64, 8int)),
{
    let bytes = episode_response_bytes(agents, cfg, info);
    assert(bytes.subrange(0, 8) =~= u64_le(agents.len() as u64));
    lemma_dec_u64_of_enc(bytes, 0, agents.len() as u64);
}

/// A step response never carries a leading count: its bytes begin directly
/// with the first agent's fields (the identifier only when re-emission is
/// configured, else the observation).
pub proof fn lemma_step_response_no_leading_count(
    rows: Seq<SpecStepRow>,
    cfg: Config,
    info: Seq<(Seq<u8>, Seq<u8>)>,
)
    requires
        rows.len() > 0,
    ensures
        step_response_bytes(rows, cfg, info).len() >= step_row_bytes(
            rows[0],
            cfg.resend_ids_every_step,
        ).len(),
        step_response_bytes(rows, cfg, info).subrange(
            0,
            step_row_bytes(rows[0], cfg.resend_ids_every_step).len() as int,
        ) == step_row_bytes(rows[0], cfg.resend_ids_every_step),
{
    let emit = cfg.resend_ids_every_step;
    let rb = step_row_bytes(rows[0], emit);
    let bytes = step_response_bytes(rows, cfg, info);
    assert(bytes =~= rb + (step_rows_bytes(rows.drop_first(), emit) + info_part(
        info,
        cfg.shared_info_enabled,
    )));
    assert(bytes.subrange(0, bytes.len() as int) =~= bytes);
    lemma_split_cat(bytes, 0, rb, step_rows_bytes(rows.drop_first(), emit) + info_part(
        info,
        cfg.shared_info_enabled,
    ));
}

/// Roster stability: while identifier re-emission is off, a step response
/// carries no identifier fields, and decoding it against the last-known
/// roster yields the per-agent data paired with exactly that roster, in
/// its order.
pub proof fn lemma_roster_reused_when_ids_omitted(
    rows: Seq<SpecStepRow>,
    roster: Seq<Seq<u8>>,
    cfg: Config,
    info: Seq<(Seq<u8>, Seq<u8>)>,
)
    requires
        !cfg.resend_ids_every_step,
        step_rows_wf(rows),
        pairs_wf(info),
        rows.len() == roster.len(),
        forall|k: int| 0 <= k < rows.len() ==> (#[trigger] rows[k]).agent_id == roster[k],
        !cfg.shared_info_enabled ==> info == Seq::<(Seq<u8>, Seq<u8>)>::empty(),
    ensures
        dec_step_response(step_response_bytes(rows, cfg, info), 0, roster, cfg) == Some(
            (rows, info, step_response_bytes(rows, cfg, info).len() as int),
        ),
{
    let s = step_response_bytes(rows, cfg, info);
    assert(s.subrange(0, s.len() as int) =~= s);
    lemma_dec_step_response_of_enc(s, 0, rows, roster, cfg, info);
}

} // verus!
