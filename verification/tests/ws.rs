use chronicle_data_api::events::{ChunkUploaded, Event, SessionStateChanged};
use chronicle_data_api::ids::PseudoId;
use chronicle_data_api::state::SessionStatus;
use chronicle_data_api::ws::filter::{Filter, SubscriptionSet};
use chronicle_data_api::ws::queue::DropOldestQueue;
use chronicle_data_api::ws::session::{ClientFrame, Closed, ServerFrame, WsInput, WsSession, PONG_GRACE_NANOS};

fn sample_event(kind: &str, guild_id: i64, session_id: u128) -> Event {
    match kind {
        "chunk_uploaded" => Event::ChunkUploaded {
            at_ts: 1,
            data: ChunkUploaded {
                session_id,
                guild_id,
                pseudo_id: PseudoId::new("0123456789abcdef01234567").unwrap(),
                seq: 1,
                size_bytes: 10,
            },
        },
        "session_state_changed" => Event::SessionStateChanged {
            at_ts: 1,
            data: SessionStateChanged {
                session_id,
                guild_id,
                old: SessionStatus::Recording,
                new: SessionStatus::Uploaded,
            },
        },
        _ => panic!("unknown test event"),
    }
}

fn new_sid() -> u128 {
    uuid::Uuid::new_v4().as_u128()
}

#[test]
fn matches_by_event_name() {
    let mut set = SubscriptionSet::new();
    set.subscribe(vec!["chunk_uploaded".to_string()], Filter::default());
    let guild = 1;
    let sid = new_sid();
    assert!(set.matches(&sample_event("chunk_uploaded", guild, sid)));
    assert!(!set.matches(&sample_event("session_state_changed", guild, sid)));
}

#[test]
fn filters_by_guild_id() {
    let mut set = SubscriptionSet::new();
    set.subscribe(
        vec!["chunk_uploaded".to_string()],
        Filter {
            guild_id: Some(7),
            ..Default::default()
        },
    );
    let sid = new_sid();
    assert!(set.matches(&sample_event("chunk_uploaded", 7, sid)));
    assert!(!set.matches(&sample_event("chunk_uploaded", 8, sid)));
}

#[test]
fn unsubscribe_removes_all_with_event_name() {
    let mut set = SubscriptionSet::new();
    set.subscribe(
        vec!["chunk_uploaded".to_string()],
        Filter {
            guild_id: Some(1),
            ..Default::default()
        },
    );
    set.subscribe(
        vec!["chunk_uploaded".to_string()],
        Filter {
            guild_id: Some(2),
            ..Default::default()
        },
    );
    set.unsubscribe(vec!["chunk_uploaded".to_string()]);
    assert!(set.active().is_empty());
}

#[test]
fn filters_by_session_id() {
    let mut set = SubscriptionSet::new();
    let sid = new_sid();
    set.subscribe(
        vec!["session_state_changed".to_string()],
        Filter { guild_id: None, session_id: Some(sid) },
    );
    assert!(set.matches(&sample_event("session_state_changed", 3, sid)));
    assert!(!set.matches(&sample_event("session_state_changed", 3, sid.wrapping_add(1))));
}

#[test]
fn subscribing_twice_keeps_one_entry() {
    let mut set = SubscriptionSet::new();
    set.subscribe(vec!["chunk_uploaded".to_string(), "chunk_uploaded".to_string()], Filter::default());
    set.subscribe(vec!["chunk_uploaded".to_string()], Filter::default());
    assert_eq!(set.active().len(), 1);
}

#[test]
fn unsubscribe_keeps_other_names() {
    let mut set = SubscriptionSet::new();
    set.subscribe(
        vec!["chunk_uploaded".to_string(), "session_state_changed".to_string()],
        Filter::default(),
    );
    set.unsubscribe(vec!["chunk_uploaded".to_string()]);
    let active = set.active();
    assert_eq!(active.len(), 1);
    assert_eq!(active[0].event, "session_state_changed");
}

fn ev() -> Event {
    Event::ChunkUploaded {
        at_ts: 5,
        data: ChunkUploaded {
            session_id: new_sid(),
            guild_id: 1,
            pseudo_id: PseudoId::new("0123456789abcdef01234567").unwrap(),
            seq: 0,
            size_bytes: 1,
        },
    }
}

#[test]
fn drops_oldest_on_overflow() {
    let mut q = DropOldestQueue::new(2);
    assert!(!q.push(ev()));
    assert!(!q.push(ev()));
    // third push overflows: oldest is dropped.
    assert!(q.push(ev()));
    assert_eq!(q.len(), 2);
    assert_eq!(q.dropped(), 1);
}

#[test]
fn zero_cap_coerces_to_one() {
    let mut q = DropOldestQueue::new(0);
    q.push(ev());
    assert_eq!(q.len(), 1);
}

#[test]
fn queue_pops_in_arrival_order() {
    let mut q = DropOldestQueue::new(3);
    for seq in 0..5 {
        q.push(Event::ChunkUploaded {
            at_ts: seq as i64,
            data: ChunkUploaded {
                session_id: 1,
                guild_id: 1,
                pseudo_id: PseudoId::new("0123456789abcdef01234567").unwrap(),
                seq,
                size_bytes: 1,
            },
        });
    }
    assert_eq!(q.dropped(), 2);
    let mut seen = Vec::new();
    while let Some(Event::ChunkUploaded { data, .. }) = q.pop() {
        seen.push(data.seq);
    }
    assert_eq!(seen, vec![2, 3, 4]);
}

fn subscribe(s: &mut WsSession, names: &[&str], now: u64) {
    let step = s.step(
        WsInput::Frame(ClientFrame::Subscribe {
            events: names.iter().map(|n| n.to_string()).collect(),
            filter: Filter::default(),
        }),
        now,
    );
    match step.reply {
        Some(ServerFrame::Subscribed { active_filters }) => assert!(!active_filters.is_empty()),
        _ => panic!("expected a subscribed ack"),
    }
}

#[test]
fn session_queues_only_matching_events() {
    let mut s = WsSession::new(4, 0);
    subscribe(&mut s, &["chunk_uploaded"], 0);
    let step = s.step(WsInput::Bus(sample_event("session_state_changed", 1, 1)), 1);
    assert!(step.close.is_none());
    assert!(s.next_outgoing().is_none());
    s.step(WsInput::Bus(sample_event("chunk_uploaded", 1, 1)), 2);
    assert!(matches!(s.next_outgoing(), Some(Event::ChunkUploaded { .. })));
}

#[test]
fn session_closes_on_drop_burst() {
    let mut s = WsSession::new(1, 0);
    subscribe(&mut s, &["chunk_uploaded"], 0);
    let mut closed = None;
    for i in 0..20u64 {
        let step = s.step(WsInput::Bus(sample_event("chunk_uploaded", 1, 1)), i);
        if step.close.is_some() {
            closed = step.close;
            break;
        }
    }
    assert!(matches!(closed, Some(Closed::DropBurst)));
}

#[test]
fn session_ping_pong_and_timeout() {
    let mut s = WsSession::new(4, 0);
    let step = s.step(WsInput::Tick, 1_000);
    assert!(step.send_ping);
    assert!(s.pong_deadline().is_some());
    s.step(WsInput::Pong, 2_000);
    assert!(s.pong_deadline().is_none());
    let step = s.step(WsInput::Ping(vec![1, 2]), 3_000);
    assert_eq!(step.pong, Some(vec![1, 2]));
    let step = s.step(WsInput::DeadlineElapsed, 4_000);
    assert!(matches!(step.close, Some(Closed::HealthcheckTimeout)));
}

#[test]
fn session_reports_bad_frames() {
    let mut s = WsSession::new(4, 0);
    let step = s.step(WsInput::BadFrame("expected value".to_string()), 0);
    match step.reply {
        Some(ServerFrame::Error { message }) => assert!(message.contains("expected value")),
        _ => panic!("expected an error frame"),
    }
    assert!(step.close.is_none());
}

#[test]
fn session_close_reasons() {
    let mut s = WsSession::new(2, 0);
    assert!(matches!(s.step(WsInput::BusClosed, 0).close, Some(Closed::PeerClosed)));
    assert!(matches!(s.step(WsInput::PeerEnded, 0).close, Some(Closed::PeerClosed)));
    assert!(matches!(s.step(WsInput::Close, 0).close, Some(Closed::PeerClosed)));
    assert!(matches!(s.step(WsInput::PingFailed, 0).close, Some(Closed::PeerClosed)));
    match s.step(WsInput::PeerFailed("reset".to_string()), 0).close {
        Some(Closed::PeerError(m)) => assert_eq!(m, "reset"),
        _ => panic!("expected peer error"),
    }
    match s.step(WsInput::SendFailed("broken pipe".to_string()), 0).close {
        Some(Closed::SendFailed(m)) => assert_eq!(m, "broken pipe"),
        _ => panic!("expected send failure"),
    }
    let step = s.step(WsInput::Binary, 0);
    match step.reply {
        Some(ServerFrame::Error { message }) => assert_eq!(message, "binary frames unsupported"),
        _ => panic!("expected an error frame"),
    }
    match step.close {
        Some(Closed::InvalidFrame(m)) => assert_eq!(m, "binary"),
        _ => panic!("expected invalid frame"),
    }
    let lag = s.step(WsInput::BusLagged(7), 0);
    assert_eq!(lag.dropped, 7);
    assert!(lag.close.is_none());
    let ping = s.step(WsInput::Frame(ClientFrame::Ping), 0);
    assert_eq!(ping.pong, Some(vec![]));
}

#[test]
fn drop_window_resets_after_a_minute() {
    let mut s = WsSession::new(1, 0);
    subscribe(&mut s, &["chunk_uploaded"], 0);
    s.step(WsInput::Bus(sample_event("chunk_uploaded", 1, 1)), 0);
    // ten drops inside the first minute are tolerated
    for i in 1..=10u64 {
        let step = s.step(WsInput::Bus(sample_event("chunk_uploaded", 1, 1)), i);
        assert_eq!(step.dropped, 1);
        assert!(step.close.is_none());
    }
    // a drop after the window has passed opens a new window
    let later = 61_000_000_000u64;
    let step = s.step(WsInput::Bus(sample_event("chunk_uploaded", 1, 1)), later);
    assert!(step.close.is_none());
    let step = s.step(WsInput::Frame(ClientFrame::Unsubscribe { events: vec!["chunk_uploaded".to_string()] }), later);
    match step.reply {
        Some(ServerFrame::Unsubscribed { active_filters }) => assert!(active_filters.is_empty()),
        _ => panic!("expected unsubscribed ack"),
    }
}

#[test]
fn peer_ping_leaves_session_state_alone() {
    let mut s = WsSession::new(4, 0);
    subscribe(&mut s, &["chunk_uploaded"], 0);
    s.step(WsInput::Bus(sample_event("chunk_uploaded", 1, 1)), 10);
    s.step(WsInput::Tick, 1_000);
    let deadline = s.pong_deadline();
    assert!(deadline.is_some());
    let step = s.step(WsInput::Ping(vec![9]), 2_000);
    assert_eq!(step.pong, Some(vec![9]));
    assert!(step.reply.is_none() && !step.send_ping && step.dropped == 0 && step.close.is_none());
    let step = s.step(WsInput::Frame(ClientFrame::Ping), 3_000);
    assert_eq!(step.pong, Some(vec![]));
    let step = s.step(WsInput::BadFrame("oops".to_string()), 4_000);
    assert!(step.close.is_none());
    assert_eq!(s.pong_deadline(), deadline);
    assert!(s.next_outgoing().is_some());
    assert!(s.next_outgoing().is_none());
}

#[test]
fn accepted_events_are_written_in_bus_order() {
    let mut s = WsSession::new(8, 0);
    let step = s.step(
        WsInput::Frame(ClientFrame::Subscribe {
            events: vec!["chunk_uploaded".to_string()],
            filter: Filter { guild_id: Some(7), session_id: None },
        }),
        0,
    );
    assert!(step.close.is_none());
    let mut written: Vec<(i64, u128)> = Vec::new();
    let bus = [(7, 1u128), (8, 2), (7, 3), (7, 4), (9, 5), (7, 6)];
    for (i, (g, sid)) in bus.iter().enumerate() {
        let step = s.step(WsInput::Bus(sample_event("chunk_uploaded", *g, *sid)), i as u64);
        assert_eq!(step.dropped, 0);
        s.step(WsInput::Bus(sample_event("session_state_changed", 7, 100 + i as u128)), i as u64);
        if i % 2 == 1 {
            if let Some(Event::ChunkUploaded { data, .. }) = s.next_outgoing() {
                written.push((data.guild_id, data.session_id));
            }
        }
    }
    while let Some(ev) = s.next_outgoing() {
        match ev {
            Event::ChunkUploaded { data, .. } => written.push((data.guild_id, data.session_id)),
            _ => panic!("an event no subscription accepted was written"),
        }
    }
    assert_eq!(written, vec![(7, 1), (7, 3), (7, 4), (7, 6)]);
}

#[test]
fn unanswered_ping_keeps_deadline_until_timeout() {
    let mut s = WsSession::new(4, 0);
    let tick = s.step(WsInput::Tick, 5_000);
    assert!(tick.send_ping);
    let due = Some(5_000 + PONG_GRACE_NANOS);
    s.step(WsInput::Ping(vec![1]), 6_000);
    s.step(WsInput::Bus(sample_event("chunk_uploaded", 1, 1)), 7_000);
    s.step(WsInput::BadFrame("x".to_string()), 8_000);
    assert_eq!(s.pong_deadline(), due);
    let step = s.step(WsInput::DeadlineElapsed, 5_000 + PONG_GRACE_NANOS);
    assert!(matches!(step.close, Some(Closed::HealthcheckTimeout)));
}

#[test]
fn overflow_drops_keep_bus_order() {
    let mut s = WsSession::new(2, 0);
    subscribe(&mut s, &["chunk_uploaded"], 0);
    let mut written: Vec<u128> = Vec::new();
    for sid in 1..=5u128 {
        s.step(WsInput::Bus(sample_event("chunk_uploaded", 1, sid)), sid as u64);
        if sid == 3 {
            if let Some(Event::ChunkUploaded { data, .. }) = s.next_outgoing() {
                written.push(data.session_id);
            }
        }
    }
    while let Some(Event::ChunkUploaded { data, .. }) = s.next_outgoing() {
        written.push(data.session_id);
    }
    assert_eq!(written, vec![2, 4, 5]);
}
