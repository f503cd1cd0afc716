use env_worker::codec::{
    read_episode_response, read_header, read_request, read_shapes_response, read_step_response,
    write_episode_response, write_header, write_request, write_shapes_response,
    write_step_response, Request, StepRow,
};
use env_worker::bytes::{read_bool, read_u64, write_bool, write_u64};
use env_worker::wire::{Config, Header};

fn cfg_all() -> Config {
    Config {
        shared_info_enabled: true,
        patch_enabled: true,
        state_enabled: true,
        resend_ids_every_step: false,
    }
}

fn cfg_bare() -> Config {
    Config {
        shared_info_enabled: false,
        patch_enabled: false,
        state_enabled: false,
        resend_ids_every_step: false,
    }
}

#[test]
fn header_round_trip() {
    let mut buf = vec![0u8; 16];
    for h in [Header::EnvAction, Header::EnvShapesRequest, Header::Stop] {
        let end = write_header(&mut buf, 0, h);
        assert_eq!(end, 1);
        let (h2, end2) = read_header(&buf, 0).unwrap();
        assert_eq!(h2, h);
        assert_eq!(end2, 1);
    }
}

#[test]
fn header_rejects_unknown_tag() {
    let buf = vec![9u8; 4];
    assert!(read_header(&buf, 0).is_none());
    assert!(read_header(&buf, 4).is_none());
}

#[test]
fn step_request_round_trip_without_patch() {
    let cfg = cfg_bare();
    let req = Request::Step {
        actions: vec![vec![1], vec![0]],
        patch: None,
    };
    let mut buf = vec![0u8; 256];
    let end = write_request(&mut buf, 0, &req, cfg);
    let (req2, end2) = read_request(&buf, 0, cfg, 2).unwrap();
    assert_eq!(req2, req);
    assert_eq!(end2, end);
}

#[test]
fn step_request_round_trip_with_patch() {
    let cfg = cfg_all();
    let req = Request::Step {
        actions: vec![b"left".to_vec(), b"right".to_vec(), vec![]],
        patch: Some(vec![(b"score".to_vec(), vec![3]), (b"round".to_vec(), vec![7, 7])]),
    };
    let mut buf = vec![0u8; 512];
    let end = write_request(&mut buf, 0, &req, cfg);
    let (req2, end2) = read_request(&buf, 0, cfg, 3).unwrap();
    assert_eq!(req2, req);
    assert_eq!(end2, end);
}

#[test]
fn reset_request_round_trip_both_patch_states() {
    let cfg = cfg_all();
    for patch in [None, Some(vec![(b"k".to_vec(), b"v".to_vec())])] {
        let req = Request::Reset { patch: patch.clone() };
        let mut buf = vec![0u8; 256];
        let end = write_request(&mut buf, 0, &req, cfg);
        let (req2, end2) = read_request(&buf, 0, cfg, 0).unwrap();
        assert_eq!(req2, req);
        assert_eq!(end2, end);
    }
}

#[test]
fn set_state_request_round_trip() {
    let cfg = cfg_all();
    let req = Request::SetState {
        state: b"frozen-state-blob".to_vec(),
        patch: Some(vec![(b"speed".to_vec(), vec![2])]),
    };
    let mut buf = vec![0u8; 256];
    let end = write_request(&mut buf, 0, &req, cfg);
    let (req2, end2) = read_request(&buf, 0, cfg, 5).unwrap();
    assert_eq!(req2, req);
    assert_eq!(end2, end);
}

#[test]
fn set_state_rejected_when_state_codec_not_configured() {
    // Tag 2 with state transfer unconfigured cannot parse.
    let cfg_writer = cfg_all();
    let req = Request::SetState {
        state: b"blob".to_vec(),
        patch: None,
    };
    let mut buf = vec![0u8; 256];
    write_request(&mut buf, 0, &req, cfg_writer);
    let mut cfg_reader = cfg_all();
    cfg_reader.state_enabled = false;
    assert!(read_request(&buf, 0, cfg_reader, 0).is_none());
}

#[test]
fn request_with_bad_patch_flag_byte_rejected() {
    let cfg = cfg_all();
    // Reset request: tag byte 1, then a patch flag byte that is neither 0
    // nor 1.
    let buf = vec![1u8, 7u8];
    assert!(read_request(&buf, 0, cfg, 0).is_none());
}

#[test]
fn truncated_request_rejected() {
    let cfg = cfg_bare();
    let req = Request::Step {
        actions: vec![b"abcdef".to_vec()],
        patch: None,
    };
    let mut buf = vec![0u8; 64];
    let end = write_request(&mut buf, 0, &req, cfg);
    let cut = buf[..end - 1].to_vec();
    assert!(read_request(&cut, 0, cfg, 1).is_none());
}

#[test]
fn step_response_round_trip_ids_from_roster() {
    // Identifier re-emission off: the wire has no identifier fields and the
    // decoder takes them from the last-known roster, in roster order.
    let cfg = cfg_bare();
    let rows = vec![
        StepRow {
            agent_id: b"blue0".to_vec(),
            obs: b"ob".to_vec(),
            reward: vec![1],
            terminated: false,
            truncated: true,
        },
        StepRow {
            agent_id: b"orange0".to_vec(),
            obs: b"oo".to_vec(),
            reward: vec![2],
            terminated: true,
            truncated: false,
        },
    ];
    let info = vec![];
    let mut buf = vec![0u8; 512];
    let end = write_step_response(&mut buf, 0, &rows, cfg, &info);
    let roster = vec![b"blue0".to_vec(), b"orange0".to_vec()];
    let (rows2, info2, end2) = read_step_response(&buf, 0, &roster, cfg).unwrap();
    assert_eq!(rows2, rows);
    assert!(info2.is_empty());
    assert_eq!(end2, end);
}

#[test]
fn step_response_round_trip_ids_on_wire() {
    // Identifier re-emission on: identifiers come from the wire, not from
    // the roster the decoder holds.
    let mut cfg = cfg_bare();
    cfg.resend_ids_every_step = true;
    let rows = vec![StepRow {
        agent_id: b"blue0".to_vec(),
        obs: b"x".to_vec(),
        reward: vec![9],
        terminated: false,
        truncated: false,
    }];
    let mut buf = vec![0u8; 256];
    write_step_response(&mut buf, 0, &rows, cfg, &vec![]);
    let stale_roster = vec![b"someone-else".to_vec()];
    let (rows2, _, _) = read_step_response(&buf, 0, &stale_roster, cfg).unwrap();
    assert_eq!(rows2[0].agent_id, b"blue0".to_vec());
}

#[test]
fn episode_response_round_trip_with_shared_info() {
    let cfg = cfg_all();
    let agents = vec![
        (b"blue0".to_vec(), b"obs-b".to_vec()),
        (b"orange0".to_vec(), b"obs-o".to_vec()),
    ];
    let info = vec![(b"score".to_vec(), vec![3])];
    let mut buf = vec![0u8; 512];
    let end = write_episode_response(&mut buf, 0, &agents, cfg, &info);
    let (agents2, info2, end2) = read_episode_response(&buf, 0, cfg).unwrap();
    assert_eq!(agents2, agents);
    assert_eq!(info2, info);
    assert_eq!(end2, end);
}

#[test]
fn episode_response_starts_with_count_field() {
    let cfg = cfg_bare();
    let agents = vec![
        (b"a".to_vec(), b"o1".to_vec()),
        (b"b".to_vec(), b"o2".to_vec()),
        (b"c".to_vec(), b"o3".to_vec()),
    ];
    let mut buf = vec![0u8; 256];
    write_episode_response(&mut buf, 0, &agents, cfg, &vec![]);
    assert_eq!(&buf[0..8], &3u64.to_le_bytes());
}

#[test]
fn shapes_response_round_trip() {
    let obs_space = b"Box(8,)".to_vec();
    let action_space = b"Discrete(4)".to_vec();
    let mut buf = vec![0u8; 256];
    let end = write_shapes_response(&mut buf, 0, &obs_space, &action_space);
    let (o2, a2, end2) = read_shapes_response(&buf, 0).unwrap();
    assert_eq!(o2, obs_space);
    assert_eq!(a2, action_space);
    assert_eq!(end2, end);
    // Exactly two length-prefixed fields, nothing else.
    assert_eq!(end, 16 + obs_space.len() + action_space.len());
}

#[test]
fn empty_value_round_trip() {
    let cfg = cfg_bare();
    let req = Request::Step {
        actions: vec![vec![]],
        patch: None,
    };
    let mut buf = vec![0u8; 64];
    let end = write_request(&mut buf, 0, &req, cfg);
    assert_eq!(end, 9); // tag byte + one zero-length value
    let (req2, _) = read_request(&buf, 0, cfg, 1).unwrap();
    assert_eq!(req2, req);
}

#[test]
fn count_field_boundary_values() {
    let mut buf = vec![0u8; 32];
    for v in [0u64, 1, 255, 256, u64::MAX - 1, u64::MAX] {
        let end = write_u64(&mut buf, 3, v);
        assert_eq!(end, 11);
        assert_eq!(&buf[3..11], &v.to_le_bytes());
        let (v2, end2) = read_u64(&buf, 3).unwrap();
        assert_eq!(v2, v);
        assert_eq!(end2, 11);
    }
    // A read that would run past the buffer fails.
    assert!(read_u64(&buf, 25).is_none());
}

#[test]
fn bool_field_rejects_other_bytes() {
    let mut buf = vec![0u8; 4];
    write_bool(&mut buf, 0, true);
    write_bool(&mut buf, 1, false);
    assert_eq!(read_bool(&buf, 0).unwrap().0, true);
    assert_eq!(read_bool(&buf, 1).unwrap().0, false);
    buf[2] = 2;
    assert!(read_bool(&buf, 2).is_none());
}
