//! The on-wire layout of every message kind, stated once at the
//! specification level. Encoders map a message to its byte sequence;
//! decoders map a byte sequence and an offset to the message and the
//! advanced offset, or `None` where the bytes do not parse. The executable
//! codec is proved against these, and the round-trip laws relate them.
//!
//! Coordinator-to-worker traffic starts with a one-byte header naming the
//! message kind; an environment-action request follows it with a one-byte
//! request tag. Per-agent fields carry no boundary markers, so both sides
//! must share the roster length and the framing configuration.

use vstd::prelude::*;
use crate::bytes::{u64_le, le_val, bool_byte, val_bytes, dec_u64, dec_bool, dec_val};

verus! {

/// The leading discriminant of every coordinator-to-worker message.
#[derive(Clone, Copy, PartialEq, Eq, Structural, Debug)]
pub enum Header {
    EnvAction,
    EnvShapesRequest,
    Stop,
}

/// Framing configuration, fixed at startup and shared by both parties.
/// Which fields exist on the wire depends on it, never on the bytes alone.
#[derive(Clone, Copy, PartialEq, Eq, Structural, Debug)]
pub struct Config {
    /// Responses end with the environment's shared-info dictionary.
    pub shared_info_enabled: bool,
    /// Requests may carry a shared-info patch (a flag byte precedes it).
    pub patch_enabled: bool,
    /// Set-state requests are supported (a state codec is configured).
    pub state_enabled: bool,
    /// Step responses re-emit agent identifiers even mid-episode.
    pub resend_ids_every_step: bool,
}

/// A decoded environment-action request, at the specification level.
pub enum SpecRequest {
    Step { actions: Seq<Seq<u8>>, patch: Option<Seq<(Seq<u8>, Seq<u8>)>> },
    Reset { patch: Option<Seq<(Seq<u8>, Seq<u8>)>> },
    SetState { state: Seq<u8>, patch: Option<Seq<(Seq<u8>, Seq<u8>)>> },
}

/// One agent's slice of a step response, at the specification level.
pub struct SpecStepRow {
    pub agent_id: Seq<u8>,
    pub obs: Seq<u8>,
    pub reward: Seq<u8>,
    pub terminated: bool,
    pub truncated: bool,
}

pub open spec fn header_byte(h: Header) -> u8 {
    match h {
        Header::EnvAction => 0u8,
        Header::EnvShapesRequest => 1u8,
        Header::Stop => 2u8,
    }
}

pub open spec fn header_bytes(h: Header) -> Seq<u8> {
    seq![header_byte(h)]
}

pub open spec fn dec_header(s: Seq<u8>, i: int) -> Option<(Header, int)> {
    if 0 <= i && i < s.len() {
        if s[i] == 0u8 {
            Some((Header::EnvAction, i + 1))
        } else if s[i] == 1u8 {
            Some((Header::EnvShapesRequest, i + 1))
        } else if s[i] == 2u8 {
            Some((Header::Stop, i + 1))
        } else {
            None
        }
    } else {
        None
    }
}

/// A run of length-prefixed values, back to back.
pub open spec fn vals_bytes(vs: Seq<Seq<u8>>) -> Seq<u8>
    decreases vs.len(),
{
    if vs.len() == 0 {
        Seq::empty()
    } else {
        val_bytes(vs[0]) + vals_bytes(vs.drop_first())
    }
}

pub open spec fn dec_vals(s: Seq<u8>, i: int, n: nat) -> Option<(Seq<Seq<u8>>, int)>
    decreases n,
{
    if n == 0 {
        Some((Seq::empty(), i))
    } else {
        match dec_val(s, i) {
            Some((v, j)) => match dec_vals(s, j, (n - 1) as nat) {
                Some((vs, end)) => Some((seq![v] + vs, end)),
                None => None,
            },
            None => None,
        }
    }
}

/// A run of key-value pairs, each a pair of length-prefixed values.
pub open spec fn pairs_bytes(ps: Seq<(Seq<u8>, Seq<u8>)>) -> Seq<u8>
    decreases ps.len(),
{
    if ps.len() == 0 {
        Seq::empty()
    } else {
        val_bytes(ps[0].0) + val_bytes(ps[0].1) + pairs_bytes(ps.drop_first())
    }
}

pub open spec fn dec_pairs(s: Seq<u8>, i: int, n: nat) -> Option<(Seq<(Seq<u8>, Seq<u8>)>, int)>
    decreases n,
{
    if n == 0 {
        Some((Seq::empty(), i))
    } else {
        match dec_val(s, i) {
            Some((k, j)) => match dec_val(s, j) {
                Some((v, j2)) => match dec_pairs(s, j2, (n - 1) as nat) {
                    Some((ps, end)) => Some((seq![(k, v)] + ps, end)),
                    None => None,
                },
                None => None,
            },
            None => None,
        }
    }
}

/// A dictionary: its entry count, then its entries in order.
pub open spec fn dict_bytes(ps: Seq<(Seq<u8>, Seq<u8>)>) -> Seq<u8> {
    u64_le(ps.len() as u64) + pairs_bytes(ps)
}

pub open spec fn dec_dict(s: Seq<u8>, i: int) -> Option<(Seq<(Seq<u8>, Seq<u8>)>, int)> {
    match dec_u64(s, i) {
        Some((n, j)) => dec_pairs(s, j, n as nat),
        None => None,
    }
}

/// The optional shared-info patch of a request. When patches are not
/// configured the field does not exist on the wire at all; when they are,
/// a flag byte tells whether a dictionary follows.
pub open spec fn patch_part(patch: Option<Seq<(Seq<u8>, Seq<u8>)>>, enabled: bool) -> Seq<u8> {
    if enabled {
        match patch {
            Some(ps) => bool_byte(true) + dict_bytes(ps),
            None => bool_byte(false),
        }
    } else {
        Seq::empty()
    }
}

pub open spec fn dec_patch(s: Seq<u8>, i: int, enabled: bool) -> Option<
    (Option<Seq<(Seq<u8>, Seq<u8>)>>, int),
> {
    if enabled {
        match dec_bool(s, i) {
            Some((present, j)) => if present {
                match dec_dict(s, j) {
                    Some((ps, end)) => Some((Some(ps), end)),
                    None => None,
                }
            } else {
                Some((None, j))
            },
            None => None,
        }
    } else {
        Some((None, i))
    }
}

pub open spec fn request_tag(r: SpecRequest) -> u8 {
    match r {
        SpecRequest::Step { .. } => 0u8,
        SpecRequest::Reset { .. } => 1u8,
        SpecRequest::SetState { .. } => 2u8,
    }
}

/// The wire form of an environment-action request (the bytes after the
/// message header): a tag byte, the tag's own fields, then the optional
/// patch. A step request carries exactly one action per agent of the
/// current roster, with no count of its own.
pub open spec fn request_bytes(r: SpecRequest, cfg: Config) -> Seq<u8> {
    match r {
        SpecRequest::Step { actions, patch } => seq![0u8] + vals_bytes(actions) + patch_part(
            patch,
            cfg.patch_enabled,
        ),
        SpecRequest::Reset { patch } => seq![1u8] + patch_part(patch, cfg.patch_enabled),
        SpecRequest::SetState { state, patch } => seq![2u8] + val_bytes(state) + patch_part(
            patch,
            cfg.patch_enabled,
        ),
    }
}

pub open spec fn dec_request(s: Seq<u8>, i: int, cfg: Config, n_agents: nat) -> Option<
    (SpecRequest, int),
> {
    if 0 <= i && i < s.len() {
        if s[i] == 0u8 {
            match dec_vals(s, i + 1, n_agents) {
                Some((actions, j)) => match dec_patch(s, j, cfg.patch_enabled) {
                    Some((patch, end)) => Some((SpecRequest::Step { actions, patch }, end)),
                    None => None,
                },
                None => None,
            }
        } else if s[i] == 1u8 {
            match dec_patch(s, i + 1, cfg.patch_enabled) {
                Some((patch, end)) => Some((SpecRequest::Reset { patch }, end)),
                None => None,
            }
        } else if s[i] == 2u8 && cfg.state_enabled {
            match dec_val(s, i + 1) {
                Some((state, j)) => match dec_patch(s, j, cfg.patch_enabled) {
                    Some((patch, end)) => Some((SpecRequest::SetState { state, patch }, end)),
                    None => None,
                },
                None => None,
            }
        } else {
            None
        }
    } else {
        None
    }
}

/// One agent's fields in a step response: the identifier only when
/// configured for re-emission, then observation, reward, and the two
/// episode-end flags.
pub open spec fn step_row_bytes(row: SpecStepRow, emit_id: bool) -> Seq<u8> {
    (if emit_id {
        val_bytes(row.agent_id)
    } else {
        Seq::empty()
    }) + val_bytes(row.obs) + val_bytes(row.reward) + bool_byte(row.terminated) + bool_byte(
        row.truncated,
    )
}

pub open spec fn step_rows_bytes(rows: Seq<SpecStepRow>, emit_id: bool) -> Seq<u8>
    decreases rows.len(),
{
    if rows.len() == 0 {
        Seq::empty()
    } else {
        step_row_bytes(rows[0], emit_id) + step_rows_bytes(rows.drop_first(), emit_id)
    }
}

/// Decodes the per-agent run of a step response against the last-known
/// roster: when identifiers are not on the wire, each row takes its
/// identifier from the roster, in roster order.
pub open spec fn dec_step_rows(s: Seq<u8>, i: int, roster: Seq<Seq<u8>>, emit_id: bool) -> Option<
    (Seq<SpecStepRow>, int),
>
    decreases roster.len(),
{
    if roster.len() == 0 {
        Some((Seq::empty(), i))
    } else {
        let id_dec = if emit_id {
            dec_val(s, i)
        } else {
            Some((roster[0], i))
        };
        match id_dec {
            Some((agent_id, j0)) => match dec_val(s, j0) {
                Some((obs, j1)) => match dec_val(s, j1) {
                    Some((reward, j2)) => match dec_bool(s, j2) {
                        Some((terminated, j3)) => match dec_bool(s, j3) {
                            Some((truncated, j4)) => match dec_step_rows(
                                s,
                                j4,
                                roster.drop_first(),
                                emit_id,
                            ) {
                                Some((rows, end)) => Some(
                                    (
                                        seq![
                                            SpecStepRow {
                                                agent_id,
                                                obs,
                                                reward,
                                                terminated,
                                                truncated,
                                            },
                                        ] + rows,
                                        end,
                                    ),
                                ),
                                None => None,
                            },
                            None => None,
                        },
                        None => None,
                    },
                    None => None,
                },
                None => None,
            },
            None => None,
        }
    }
}

/// The trailing shared-info dictionary of a response; absent from the wire
/// unless configured.
pub open spec fn info_part(info: Seq<(Seq<u8>, Seq<u8>)>, enabled: bool) -> Seq<u8> {
    if enabled {
        dict_bytes(info)
    } else {
        Seq::empty()
    }
}

pub open spec fn dec_info_part(s: Seq<u8>, i: int, enabled: bool) -> Option<
    (Seq<(Seq<u8>, Seq<u8>)>, int),
> {
    if enabled {
        dec_dict(s, i)
    } else {
        Some((Seq::empty(), i))
    }
}

/// The wire form of a mid-episode step response: per-agent fields in
/// roster order, then the optional shared-info dictionary. It never
/// carries a leading agent count.
pub open spec fn step_response_bytes(rows: Seq<SpecStepRow>, cfg: Config, info: Seq<
    (Seq<u8>, Seq<u8>),
>) -> Seq<u8> {
    step_rows_bytes(rows, cfg.resend_ids_every_step) + info_part(info, cfg.shared_info_enabled)
}

pub open spec fn dec_step_response(s: Seq<u8>, i: int, roster: Seq<Seq<u8>>, cfg: Config) -> Option<
    (Seq<SpecStepRow>, Seq<(Seq<u8>, Seq<u8>)>, int),
> {
    match dec_step_rows(s, i, roster, cfg.resend_ids_every_step) {
        Some((rows, j)) => match dec_info_part(s, j, cfg.shared_info_enabled) {
            Some((info, end)) => Some((rows, info, end)),
            None => None,
        },
        None => None,
    }
}

/// The wire form of an episode-boundary response (the initial reset, and
/// every reset or set-state response): a leading agent count, then each
/// agent's identifier and observation — identifiers always, whatever the
/// re-emission setting — then the optional shared-info dictionary.
pub open spec fn episode_response_bytes(agents: Seq<(Seq<u8>, Seq<u8>)>, cfg: Config, info: Seq<
    (Seq<u8>, Seq<u8>),
>) -> Seq<u8> {
    dict_bytes(agents) + info_part(info, cfg.shared_info_enabled)
}

pub open spec fn dec_episode_response(s: Seq<u8>, i: int, cfg: Config) -> Option<
    (Seq<(Seq<u8>, Seq<u8>)>, Seq<(Seq<u8>, Seq<u8>)>, int),
> {
    match dec_dict(s, i) {
        Some((agents, j)) => match dec_info_part(s, j, cfg.shared_info_enabled) {
            Some((info, end)) => Some((agents, info, end)),
            None => None,
        },
        None => None,
    }
}

/// The wire form of the shape-query response: the observation-space
/// descriptor, then the action-space descriptor, nothing else.
pub open spec fn shapes_response_bytes(obs_space: Seq<u8>, action_space: Seq<u8>) -> Seq<u8> {
    val_bytes(obs_space) + val_bytes(action_space)
}

pub open spec fn dec_shapes_response(s: Seq<u8>, i: int) -> Option<(Seq<u8>, Seq<u8>, int)> {
    match dec_val(s, i) {
        Some((obs_space, j)) => match dec_val(s, j) {
            Some((action_space, end)) => Some((obs_space, action_space, end)),
            None => None,
        },
        None => None,
    }
}

/// Length bounds that any value a serde produced meets: its length prefix
/// fits the 8-byte count field.
pub open spec fn val_wf(v: Seq<u8>) -> bool {
    v.len() <= u64::MAX
}

pub open spec fn vals_wf(vs: Seq<Seq<u8>>) -> bool {
    forall|k: int| 0 <= k < vs.len() ==> val_wf(#[trigger] vs[k])
}

pub open spec fn pairs_wf(ps: Seq<(Seq<u8>, Seq<u8>)>) -> bool {
    ps.len() <= u64::MAX && forall|k: int|
        0 <= k < ps.len() ==> val_wf(#[trigger] ps[k].0) && val_wf(ps[k].1)
}

pub open spec fn patch_wf(patch: Option<Seq<(Seq<u8>, Seq<u8>)>>, enabled: bool) -> bool {
    match patch {
        Some(ps) => enabled && pairs_wf(ps),
        None => true,
    }
}

/// What a well-formed request is, against the configuration and the
/// current roster size: a step carries exactly one action per agent, a
/// set-state is only formed when state transfer is configured, and a patch
/// only when patches are.
pub open spec fn request_wf(r: SpecRequest, cfg: Config, n_agents: nat) -> bool {
    match r {
        SpecRequest::Step { actions, patch } => actions.len() == n_agents && vals_wf(actions)
            && patch_wf(patch, cfg.patch_enabled),
        SpecRequest::Reset { patch } => patch_wf(patch, cfg.patch_enabled),
        SpecRequest::SetState { state, patch } => cfg.state_enabled && val_wf(state) && patch_wf(
            patch,
            cfg.patch_enabled,
        ),
    }
}

pub open spec fn step_row_wf(row: SpecStepRow) -> bool {
    val_wf(row.agent_id) && val_wf(row.obs) && val_wf(row.reward)
}

pub open spec fn step_rows_wf(rows: Seq<SpecStepRow>) -> bool {
    forall|k: int| 0 <= k < rows.len() ==> step_row_wf(#[trigger] rows[k])
}

} // verus!
