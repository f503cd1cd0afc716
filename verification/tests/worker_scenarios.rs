use env_worker::codec::{
    read_episode_response, read_header, read_request, read_step_response, write_header,
    write_request, Request, StepRow,
};
use env_worker::wire::{Config, Header};
use env_worker::worker::{Dispatch, EnvOutcome, Phase, Worker};

fn cfg_bare() -> Config {
    Config {
        shared_info_enabled: false,
        patch_enabled: false,
        state_enabled: false,
        resend_ids_every_step: false,
    }
}

fn row(id: &[u8], obs: &[u8], reward: &[u8], terminated: bool, truncated: bool) -> StepRow {
    StepRow {
        agent_id: id.to_vec(),
        obs: obs.to_vec(),
        reward: reward.to_vec(),
        terminated,
        truncated,
    }
}

/// Two-agent episode: a step response carries, in roster order, each
/// agent's observation, reward and the two flags — no leading count, no
/// identifier fields while re-emission is off.
#[test]
fn two_agent_episode_step_layout() {
    let cfg = cfg_bare();
    let mut w = Worker::new(cfg);
    let mut buf = vec![0u8; 4096];

    // Initial reset snapshot establishes the roster.
    let agents = vec![
        (b"blue0".to_vec(), b"ob-blue".to_vec()),
        (b"orange0".to_vec(), b"ob-orange".to_vec()),
    ];
    w.respond_new_episode(&agents, &mut buf).unwrap();

    // Coordinator sends a step with actions [1], [0].
    let mut reqbuf = vec![0u8; 4096];
    let req = Request::Step {
        actions: vec![vec![1], vec![0]],
        patch: None,
    };
    let o = write_header(&mut reqbuf, 0, Header::EnvAction);
    write_request(&mut reqbuf, o, &req, cfg);

    // Worker wakes, dispatches, decodes against its roster size.
    let (h, o2) = read_header(&reqbuf, 0).unwrap();
    assert_eq!(w.on_header(h), Dispatch::HandleEnvAction);
    let (req2, _) = read_request(&reqbuf, o2, cfg, w.roster.len()).unwrap();
    assert_eq!(req2, req);
    let zipped = w.zip_actions(&vec![vec![1], vec![0]]).unwrap();
    assert_eq!(zipped[0], (b"blue0".to_vec(), vec![1]));
    assert_eq!(zipped[1], (b"orange0".to_vec(), vec![0]));

    // Environment stepped; worker writes the response.
    let rows = vec![
        row(b"blue0", b"nb", b"r0", false, false),
        row(b"orange0", b"no", b"r1", false, false),
    ];
    let outcome = EnvOutcome::Stepped { rows: rows.clone() };
    let end = w.complete_env_action(&req2, &outcome, &mut buf).unwrap();

    // No leading count, no identifiers: the first field is blue0's
    // observation, length-prefixed.
    assert_eq!(&buf[0..8], &2u64.to_le_bytes());
    assert_eq!(&buf[8..10], b"nb");
    // Then its reward and the two false flags.
    assert_eq!(&buf[10..18], &2u64.to_le_bytes());
    assert_eq!(&buf[18..20], b"r0");
    assert_eq!(buf[20], 0);
    assert_eq!(buf[21], 0);
    // The coordinator decodes with its last-known roster, in order.
    let roster = vec![b"blue0".to_vec(), b"orange0".to_vec()];
    let (rows2, info, end2) = read_step_response(&buf, 0, &roster, cfg).unwrap();
    assert_eq!(rows2, rows);
    assert!(info.is_empty());
    assert_eq!(end2, end);
    // The roster is unchanged within the episode.
    assert_eq!(w.roster, roster);
}

/// Mid-run reset: the response carries a leading count, every identifier
/// and observations only; the next step uses the new roster.
#[test]
fn mid_run_reset_refreshes_roster() {
    let cfg = cfg_bare();
    let mut w = Worker::new(cfg);
    let mut buf = vec![0u8; 4096];
    let agents = vec![
        (b"blue0".to_vec(), b"a".to_vec()),
        (b"orange0".to_vec(), b"b".to_vec()),
    ];
    w.respond_new_episode(&agents, &mut buf).unwrap();

    // A few step cycles.
    for _ in 0..3 {
        assert_eq!(w.on_header(Header::EnvAction), Dispatch::HandleEnvAction);
        let req = Request::Step {
            actions: vec![vec![0], vec![0]],
            patch: None,
        };
        let rows = vec![row(b"blue0", b"x", b"r", false, false), row(b"orange0", b"y", b"r", false, false)];
        w.complete_env_action(&req, &EnvOutcome::Stepped { rows }, &mut buf)
            .unwrap();
    }

    // Reset: new episode with a changed, larger roster.
    assert_eq!(w.on_header(Header::EnvAction), Dispatch::HandleEnvAction);
    let req = Request::Reset { patch: None };
    let fresh = vec![
        (b"blue0".to_vec(), b"o1".to_vec()),
        (b"orange0".to_vec(), b"o2".to_vec()),
        (b"purple0".to_vec(), b"o3".to_vec()),
    ];
    let end = w
        .complete_env_action(&req, &EnvOutcome::NewEpisode { agents: fresh.clone() }, &mut buf)
        .unwrap();

    // Leading count and both identifier and observation per agent; no
    // rewards, no flags.
    assert_eq!(&buf[0..8], &3u64.to_le_bytes());
    let (agents2, info, end2) = read_episode_response(&buf, 0, cfg).unwrap();
    assert_eq!(agents2, fresh);
    assert!(info.is_empty());
    assert_eq!(end2, end);

    // The worker's roster is refreshed; a subsequent step zips against it.
    assert_eq!(
        w.roster,
        vec![b"blue0".to_vec(), b"orange0".to_vec(), b"purple0".to_vec()]
    );
    assert!(w.zip_actions(&vec![vec![0], vec![0]]).is_none());
    let zipped = w.zip_actions(&vec![vec![1], vec![2], vec![3]]).unwrap();
    assert_eq!(zipped[2].0, b"purple0".to_vec());
}

/// The shape query is a one-time setup message: after the first
/// environment action it terminates the worker with no response written.
#[test]
fn shape_query_after_env_action_terminates() {
    let cfg = cfg_bare();
    let mut w = Worker::new(cfg);
    let mut buf = vec![0u8; 1024];
    let agents = vec![(b"a0".to_vec(), b"o".to_vec())];
    w.respond_new_episode(&agents, &mut buf).unwrap();

    // Before any environment action the query is admissible.
    assert_eq!(w.on_header(Header::EnvShapesRequest), Dispatch::RespondShapes);
    let n = w
        .respond_shapes(&b"Box(8,)".to_vec(), &b"Discrete(4)".to_vec(), &mut buf)
        .unwrap();
    assert!(n > 0);

    // Process one environment action.
    assert_eq!(w.on_header(Header::EnvAction), Dispatch::HandleEnvAction);
    let req = Request::Step {
        actions: vec![vec![0]],
        patch: None,
    };
    let rows = vec![row(b"a0", b"o2", b"r", false, false)];
    w.complete_env_action(&req, &EnvOutcome::Stepped { rows }, &mut buf)
        .unwrap();

    // Now the query is a protocol violation: terminate, write nothing.
    let before = buf.clone();
    assert_eq!(w.on_header(Header::EnvShapesRequest), Dispatch::Violation);
    assert_eq!(w.phase, Phase::Terminated);
    assert_eq!(buf, before);
}

/// A stop header exits the loop cleanly with no response.
#[test]
fn stop_terminates_cleanly() {
    let cfg = cfg_bare();
    let mut w = Worker::new(cfg);
    assert_eq!(w.on_header(Header::Stop), Dispatch::Stop);
    assert_eq!(w.phase, Phase::Terminated);
}

/// A step request carrying a shared-info patch must patch the
/// environment's shared info before the response is encoded, so the
/// response's shared-info field reflects it.
#[test]
fn shared_info_patch_applied_before_response() {
    let cfg = Config {
        shared_info_enabled: true,
        patch_enabled: true,
        state_enabled: false,
        resend_ids_every_step: false,
    };
    let mut w = Worker::new(cfg);
    let mut buf = vec![0u8; 4096];
    let agents = vec![(b"a0".to_vec(), b"o".to_vec())];
    w.respond_new_episode(&agents, &mut buf).unwrap();

    assert_eq!(w.on_header(Header::EnvAction), Dispatch::HandleEnvAction);
    let req = Request::Step {
        actions: vec![vec![0]],
        patch: Some(vec![(b"score".to_vec(), vec![3])]),
    };
    let rows = vec![row(b"a0", b"o2", b"r", false, false)];
    let end = w
        .complete_env_action(&req, &EnvOutcome::Stepped { rows: rows.clone() }, &mut buf)
        .unwrap();

    // The worker's shared info reflects score = 3.
    assert_eq!(w.shared_info.get(&b"score".to_vec()), Some(vec![3]));
    // And so does the shared-info field of the very response written.
    let roster = vec![b"a0".to_vec()];
    let (rows2, info, end2) = read_step_response(&buf, 0, &roster, cfg).unwrap();
    assert_eq!(rows2, rows);
    assert_eq!(info, vec![(b"score".to_vec(), vec![3])]);
    assert_eq!(end2, end);
}

/// Patching an existing key overwrites its value in place; a fresh key is
/// appended.
#[test]
fn shared_info_merge_overwrites_and_appends() {
    let cfg = Config {
        shared_info_enabled: true,
        patch_enabled: true,
        state_enabled: false,
        resend_ids_every_step: false,
    };
    let mut w = Worker::new(cfg);
    let mut buf = vec![0u8; 4096];
    w.respond_new_episode(&vec![(b"a0".to_vec(), b"o".to_vec())], &mut buf)
        .unwrap();

    let first = Request::Reset {
        patch: Some(vec![(b"score".to_vec(), vec![1]), (b"round".to_vec(), vec![1])]),
    };
    w.complete_env_action(
        &first,
        &EnvOutcome::NewEpisode { agents: vec![(b"a0".to_vec(), b"o".to_vec())] },
        &mut buf,
    )
    .unwrap();
    let second = Request::Reset {
        patch: Some(vec![(b"score".to_vec(), vec![2]), (b"flag".to_vec(), vec![9])]),
    };
    w.complete_env_action(
        &second,
        &EnvOutcome::NewEpisode { agents: vec![(b"a0".to_vec(), b"o".to_vec())] },
        &mut buf,
    )
    .unwrap();

    assert_eq!(w.shared_info.get(&b"score".to_vec()), Some(vec![2]));
    assert_eq!(w.shared_info.get(&b"round".to_vec()), Some(vec![1]));
    assert_eq!(w.shared_info.get(&b"flag".to_vec()), Some(vec![9]));
    assert_eq!(w.shared_info.get(&b"absent".to_vec()), None);
    // Overwrite kept the key's position.
    assert_eq!(w.shared_info.entries[0].0, b"score".to_vec());
}

/// A response that cannot fit the buffer is refused whole: nothing is
/// written.
#[test]
fn oversized_response_refused() {
    let cfg = cfg_bare();
    let mut w = Worker::new(cfg);
    let mut tiny = vec![0u8; 4];
    let before = tiny.clone();
    let r = w.respond_new_episode(&vec![(b"a0".to_vec(), b"obs".to_vec())], &mut tiny);
    assert!(r.is_none());
    assert_eq!(tiny, before);
}
