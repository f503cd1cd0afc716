//! The worker's control state machine. It owns the roster, the shared-info
//! dictionary and the protocol flags; the host side performs the blocking
//! waits and the environment calls, and hands the results back as plain
//! values. Every decision — how a header is dispatched, when the one-time
//! shape query is still admissible, which response shape an
//! environment-action gets, when the roster is refreshed — is made and
//! proved here.

use vstd::prelude::*;
use crate::wire::{
    Header, Config, SpecRequest, step_response_bytes, episode_response_bytes,
    shapes_response_bytes,
};
use crate::codec::{
    Request, StepRow, rows_view, pairs_view, copy_bytes, pairs_wire_len,
    step_rows_wire_len, write_step_response, write_episode_response, write_shapes_response,
};
use crate::info::{InfoMap, map_of};

verus! {

/// The loop's control state. Dispatching is transient (it lasts one call),
/// so only the resting states are held.
#[derive(Clone, Copy, PartialEq, Eq, Structural, Debug)]
pub enum Phase {
    AwaitingHandoff,
    Terminated,
}

/// What the loop must do with a received header.
#[derive(Clone, Copy, PartialEq, Eq, Structural, Debug)]
pub enum Dispatch {
    /// Decode the request, call the environment, then complete it.
    HandleEnvAction,
    /// Answer the one-time shape query.
    RespondShapes,
    /// A shape query after the first environment action: terminate without
    /// writing a response.
    Violation,
    /// Clean shutdown, no response written.
    Stop,
}

/// What the environment call produced, aligned to the roster.
pub enum EnvOutcome {
    /// A step: per-agent observation, reward and episode-end flags, in
    /// roster order.
    Stepped { rows: Vec<StepRow> },
    /// A reset or state-set: the fresh roster, each identifier with its
    /// observation, in the environment's order.
    NewEpisode { agents: Vec<(Vec<u8>, Vec<u8>)> },
}

/// The shared-info patch a request carries, if any.
pub open spec fn spec_patch(r: SpecRequest) -> Option<Seq<(Seq<u8>, Seq<u8>)>> {
    match r {
        SpecRequest::Step { patch, .. } => patch,
        SpecRequest::Reset { patch } => patch,
        SpecRequest::SetState { patch, .. } => patch,
    }
}

/// The shared-info mapping after a patch is applied key-wise.
pub open spec fn merged_info(m: Map<Seq<u8>, Seq<u8>>, patch: Option<Seq<(Seq<u8>, Seq<u8>)>>) -> Map<
    Seq<u8>,
    Seq<u8>,
> {
    match patch {
        Some(p) => m.union_prefer_right(map_of(p)),
        None => m,
    }
}

/// The worker's state between handoffs.
pub struct Worker {
    /// Framing configuration, fixed at startup, shared with the
    /// coordinator.
    pub config: Config,
    /// The canonical agent order of the current episode.
    pub roster: Vec<Vec<u8>>,
    /// The environment's shared-info dictionary, as last seen.
    pub shared_info: InfoMap,
    /// Whether an environment action was ever processed; the shape query
    /// is admissible only before.
    pub has_received_env_action: bool,
    pub phase: Phase,
}

impl Worker {
    pub open spec fn wf(&self) -> bool {
        self.shared_info.wf()
    }

    /// A fresh worker: empty roster, empty shared info, no action seen,
    /// awaiting the first handoff.
    pub fn new(config: Config) -> (r: Worker)
        ensures
            r.wf(),
            r.config == config,
            r.roster@.len() == 0,
            r.shared_info.as_map() == Map::<Seq<u8>, Seq<u8>>::empty(),
            !r.has_received_env_action,
            r.phase == Phase::AwaitingHandoff,
    {
        Worker {
            config,
            roster: Vec::new(),
            shared_info: InfoMap::new(),
            has_received_env_action: false,
            phase: Phase::AwaitingHandoff,
        }
    }

    /// Dispatches a decoded message header. A stop terminates cleanly; a
    /// shape query after the first environment action is a protocol
    /// violation that terminates the loop with no response; an
    /// environment action is marked as received before it is handled.
    pub fn on_header(&mut self, h: Header) -> (d: Dispatch)
        requires
            old(self).phase == Phase::AwaitingHandoff,
        ensures
            final(self).config == old(self).config,
            final(self).roster == old(self).roster,
            final(self).shared_info == old(self).shared_info,
            h == Header::EnvAction ==> d == Dispatch::HandleEnvAction && final(self).phase
                == Phase::AwaitingHandoff && final(self).has_received_env_action,
            h == Header::EnvShapesRequest && old(self).has_received_env_action ==> d
                == Dispatch::Violation && final(self).phase == Phase::Terminated,
            h == Header::EnvShapesRequest && !old(self).has_received_env_action ==> d
                == Dispatch::RespondShapes && final(self).phase == Phase::AwaitingHandoff
                && !final(self).has_received_env_action,
            h == Header::Stop ==> d == Dispatch::Stop && final(self).phase == Phase::Terminated
                && final(self).has_received_env_action == old(self).has_received_env_action,
    {
        match h {
            Header::EnvAction => {
                self.has_received_env_action = true;
                Dispatch::HandleEnvAction
            },
            Header::EnvShapesRequest => {
                if self.has_received_env_action {
                    self.phase = Phase::Terminated;
                    Dispatch::Violation
                } else {
                    Dispatch::RespondShapes
                }
            },
            Header::Stop => {
                self.phase = Phase::Terminated;
                Dispatch::Stop
            },
        }
    }

    /// Pairs the roster with a decoded action list positionally; `None`
    /// exactly on a length mismatch, which is a protocol error.
    pub fn zip_actions(&self, actions: &Vec<Vec<u8>>) -> (r: Option<Vec<(Vec<u8>, Vec<u8>)>>)
        ensures
            r is Some <==> actions@.len() == self.roster@.len(),
            r is Some ==> {
                let ps = r.unwrap()@;
                ps.len() == self.roster@.len() && forall|k: int|
                    0 <= k < ps.len() ==> (#[trigger] ps[k]).0@ == self.roster@[k]@ && ps[k].1@
                        == actions@[k]@
            },
    {
        if actions.len() != self.roster.len() {
            return None;
        }
        let n = self.roster.len();
        let mut out: Vec<(Vec<u8>, Vec<u8>)> = Vec::new();
        let mut i: usize = 0;
        while i < n
            invariant
                n == self.roster.len() == actions.len(),
                0 <= i <= n,
                out@.len() == i,
                forall|k: int|
                    0 <= k < i ==> (#[trigger] out@[k]).0@ == self.roster@[k]@ && out@[k].1@
                        == actions@[k]@,
            decreases n - i,
        {
            out.push((copy_bytes(&self.roster[i]), copy_bytes(&actions[i])));
            i = i + 1;
        }
        Some(out)
    }

    /// Writes an episode-boundary response — the initial reset snapshot,
    /// and the response to every reset or state-set — and refreshes the
    /// roster from it. The response always carries the leading agent count
    /// and every identifier, whatever the re-emission setting. Returns the
    /// bytes written; `None` exactly when the buffer cannot hold the
    /// response, with the buffer untouched.
    pub fn respond_new_episode(
        &mut self,
        agents: &Vec<(Vec<u8>, Vec<u8>)>,
        buf: &mut Vec<u8>,
    ) -> (r: Option<usize>)
        requires
            old(self).wf(),
        ensures
            final(self).wf(),
            final(self).config == old(self).config,
            final(self).shared_info == old(self).shared_info,
            final(self).has_received_env_action == old(self).has_received_env_action,
            final(self).phase == old(self).phase,
            final(self).roster@.len() == agents@.len(),
            forall|k: int|
                0 <= k < agents@.len() ==> final(self).roster@[k]@ == (#[trigger] agents@[k]).0@,
            final(buf).len() == old(buf).len(),
            r is Some <==> episode_response_bytes(
                pairs_view(agents@),
                old(self).config,
                pairs_view(old(self).shared_info.entries@),
            ).len() <= old(buf).len(),
            match r {
                Some(end) => {
                    let bytes = episode_response_bytes(
                        pairs_view(agents@),
                        old(self).config,
                        pairs_view(old(self).shared_info.entries@),
                    );
                    end == bytes.len() && final(buf)@.subrange(0, end as int) == bytes && forall|
                        k: int,
                    | end <= k < old(buf).len() ==> final(buf)@[k] == old(buf)@[k]
                },
                None => final(buf)@ == old(buf)@,
            },
    {
        let mut new_roster: Vec<Vec<u8>> = Vec::new();
        let mut i: usize = 0;
        let n = agents.len();
        while i < n
            invariant
                n == agents.len(),
                0 <= i <= n,
                new_roster@.len() == i,
                forall|k: int| 0 <= k < i ==> new_roster@[k]@ == (#[trigger] agents@[k]).0@,
            decreases n - i,
        {
            new_roster.push(copy_bytes(&agents[i].0));
            i = i + 1;
        }
        self.roster = new_roster;
        let agents_len = pairs_wire_len(agents);
        let info_len = if self.config.shared_info_enabled {
            match pairs_wire_len(&self.shared_info.entries) {
                Some(l) => match l.checked_add(8) {
                    Some(l8) => Some(l8),
                    None => None,
                },
                None => None,
            }
        } else {
            Some(0)
        };
        let total = match (agents_len, info_len) {
            (Some(a), Some(b)) => match a.checked_add(b) {
                Some(ab) => ab.checked_add(8),
                None => None,
            },
            _ => None,
        };
        match total {
            Some(need) => {
                if need <= buf.len() {
                    let end = write_episode_response(
                        buf,
                        0,
                        agents,
                        self.config,
                        &self.shared_info.entries,
                    );
                    Some(end)
                } else {
                    None
                }
            },
            None => None,
        }
    }

    /// Completes a dispatched environment action: merges the request's
    /// shared-info patch into the shared-info dictionary first, so the
    /// encoded response reflects the patched state, then writes the
    /// response. A step keeps the roster and writes the per-agent step
    /// fields with no leading count; a reset or state-set refreshes the
    /// roster and writes the episode-boundary shape. Returns the bytes
    /// written; `None` exactly when the buffer cannot hold the response
    /// (the merge still happens, the buffer stays untouched).
    pub fn complete_env_action(
        &mut self,
        req: &Request,
        outcome: &EnvOutcome,
        buf: &mut Vec<u8>,
    ) -> (r: Option<usize>)
        requires
            old(self).wf(),
            old(self).phase == Phase::AwaitingHandoff,
            (req@ is Step <==> outcome is Stepped),
            outcome matches EnvOutcome::Stepped { rows } ==> rows@.len() == old(
                self,
            ).roster@.len() && forall|k: int|
                0 <= k < rows@.len() ==> (#[trigger] rows@[k]@).agent_id == old(
                    self,
                ).roster@[k]@,
        ensures
            final(self).wf(),
            final(self).config == old(self).config,
            final(self).has_received_env_action == old(self).has_received_env_action,
            final(self).phase == Phase::AwaitingHandoff,
            final(self).shared_info.as_map() == merged_info(
                old(self).shared_info.as_map(),
                spec_patch(req@),
            ),
            outcome is Stepped ==> final(self).roster == old(self).roster,
            outcome matches EnvOutcome::NewEpisode { agents } ==> final(self).roster@.len()
                == agents@.len() && forall|k: int|
                0 <= k < agents@.len() ==> final(self).roster@[k]@ == (#[trigger] agents@[k]).0@,
            final(buf).len() == old(buf).len(),
            r is Some <==> response_bytes_of(*outcome, old(self).config, *final(self)).len() <= old(
                buf,
            ).len(),
            match r {
                Some(end) => {
                    let bytes = response_bytes_of(*outcome, old(self).config, *final(self));
                    end == bytes.len() && final(buf)@.subrange(0, end as int) == bytes && forall|
                        k: int,
                    | end <= k < old(buf).len() ==> final(buf)@[k] == old(buf)@[k]
                },
                None => final(buf)@ == old(buf)@,
            },
    {
        match req {
            Request::Step { patch, .. } => {
                match patch {
                    Some(p) => self.shared_info.merge(p),
                    None => {},
                }
            },
            Request::Reset { patch } => {
                match patch {
                    Some(p) => self.shared_info.merge(p),
                    None => {},
                }
            },
            Request::SetState { patch, .. } => {
                match patch {
                    Some(p) => self.shared_info.merge(p),
                    None => {},
                }
            },
        }
        match outcome {
            EnvOutcome::Stepped { rows } => {
                let rows_len = step_rows_wire_len(rows, self.config.resend_ids_every_step);
                let info_len = if self.config.shared_info_enabled {
                    match pairs_wire_len(&self.shared_info.entries) {
                        Some(l) => match l.checked_add(8) {
                            Some(l8) => Some(l8),
                            None => None,
                        },
                        None => None,
                    }
                } else {
                    Some(0)
                };
                let total = match (rows_len, info_len) {
                    (Some(a), Some(b)) => a.checked_add(b),
                    _ => None,
                };
                match total {
                    Some(need) => {
                        if need <= buf.len() {
                            let end = write_step_response(
                                buf,
                                0,
                                rows,
                                self.config,
                                &self.shared_info.entries,
                            );
                            Some(end)
                        } else {
                            None
                        }
                    },
                    None => None,
                }
            },
            EnvOutcome::NewEpisode { agents } => self.respond_new_episode(agents, buf),
        }
    }

    /// Writes the shape-query response: the two space descriptors, nothing
    /// else. Admissible only before the first environment action — the
    /// dispatcher terminates the loop otherwise. Returns the bytes
    /// written; `None` exactly when the buffer cannot hold the response.
    pub fn respond_shapes(
        &self,
        obs_space: &Vec<u8>,
        action_space: &Vec<u8>,
        buf: &mut Vec<u8>,
    ) -> (r: Option<usize>)
        requires
            self.phase == Phase::AwaitingHandoff,
            !self.has_received_env_action,
        ensures
            final(buf).len() == old(buf).len(),
            r is Some <==> shapes_response_bytes(obs_space@, action_space@).len() <= old(
                buf,
            ).len(),
            match r {
                Some(end) => {
                    let bytes = shapes_response_bytes(obs_space@, action_space@);
                    end == bytes.len() && final(buf)@.subrange(0, end as int) == bytes && forall|
                        k: int,
                    | end <= k < old(buf).len() ==> final(buf)@[k] == old(buf)@[k]
                },
                None => final(buf)@ == old(buf)@,
            },
    {
        let total = match 16usize.checked_add(obs_space.len()) {
            Some(a) => a.checked_add(action_space.len()),
            None => None,
        };
        match total {
            Some(need) => {
                if need <= buf.len() {
                    let end = write_shapes_response(buf, 0, obs_space, action_space);
                    Some(end)
                } else {
                    None
                }
            },
            None => None,
        }
    }
}

/// The response bytes an environment action must produce: the step shape
/// for a step, the episode-boundary shape — leading count, identifiers
/// re-sent — for a reset or state-set, both over the shared-info state
/// after the patch merge.
pub open spec fn response_bytes_of(outcome: EnvOutcome, cfg: Config, w: Worker) -> Seq<u8> {
    match outcome {
        EnvOutcome::Stepped { rows } => step_response_bytes(
            rows_view(rows@),
            cfg,
            pairs_view(w.shared_info.entries@),
        ),
        EnvOutcome::NewEpisode { agents } => episode_response_bytes(
            pairs_view(agents@),
            cfg,
            pairs_view(w.shared_info.entries@),
        ),
    }
}

} // verus!
