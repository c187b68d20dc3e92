use pnl_relay::classify::{Classifier, RowAction};
use pnl_relay::registry::{Registry, QUEUE_CAPACITY};
use pnl_relay::rowline::parse_chunk;
use pnl_relay::session::{on_frame, Frame, FrameAction, Session, SessionState};
use pnl_relay::store::SnapshotStore;

fn drain(reg: &mut Registry, id: u64) -> Vec<String> {
    reg.take_queued(id)
}

#[test]
fn parse_basic_lines() {
    let chunk = b"row one\nrow two\n".to_vec();
    let out = parse_chunk(&chunk);
    assert_eq!(out, vec!["row one".to_string(), "row two".to_string()]);
}

#[test]
fn parse_discards_blank_lines() {
    let chunk = b"a\n\n   \n\t\r\nb\n".to_vec();
    let out = parse_chunk(&chunk);
    assert_eq!(out, vec!["a".to_string(), "b".to_string()]);
}

#[test]
fn parse_strips_carriage_return() {
    let chunk = b"a\r\nb\r\n".to_vec();
    let out = parse_chunk(&chunk);
    assert_eq!(out, vec!["a".to_string(), "b".to_string()]);
}

#[test]
fn parse_keeps_final_unterminated_line() {
    let chunk = b"a\nb".to_vec();
    let out = parse_chunk(&chunk);
    assert_eq!(out, vec!["a".to_string(), "b".to_string()]);
}

#[test]
fn parse_empty_chunk() {
    let chunk = Vec::new();
    let out = parse_chunk(&chunk);
    assert!(out.is_empty());
}

#[test]
fn parse_decodes_utf8() {
    let chunk = "caf\u{e9} 12.5\n".as_bytes().to_vec();
    let out = parse_chunk(&chunk);
    assert_eq!(out, vec!["caf\u{e9} 12.5".to_string()]);
}

#[test]
fn parse_replaces_invalid_utf8() {
    let chunk = vec![b'a', 0xFF, b'b', b'\n'];
    let out = parse_chunk(&chunk);
    assert_eq!(out, vec![format!("a{}b", '\u{FFFD}')]);
}

#[test]
fn chunks_are_split_independently() {
    // No line buffering is carried across chunks: a record cut in two by the
    // chunk boundary comes out as two records (a documented simplification).
    let first = b"ab".to_vec();
    let second = b"cd\n".to_vec();
    let mut out = parse_chunk(&first);
    out.extend(parse_chunk(&second));
    assert_eq!(out, vec!["ab".to_string(), "cd".to_string()]);
}

#[test]
fn store_records_and_serves_copy() {
    let mut st = SnapshotStore::new();
    assert!(!st.is_complete());
    assert!(st.current().is_empty());
    st.record(vec!["x".to_string(), "y".to_string()]);
    assert!(st.is_complete());
    assert_eq!(st.current(), vec!["x".to_string(), "y".to_string()]);
    // Overwriting is idempotent with respect to completion.
    st.record(vec!["z".to_string()]);
    assert!(st.is_complete());
    assert_eq!(st.current(), vec!["z".to_string()]);
}

#[test]
fn scenario_burst_completes_snapshot() {
    // Classifier receives three rows in a burst with nothing after: the store
    // completes with exactly those rows, and the third is also broadcast.
    let mut c = Classifier::new();
    let mut st = SnapshotStore::new();
    assert_eq!(c.on_row("r1".to_string()), RowAction::Buffered);
    assert_eq!(c.on_row("r2".to_string()), RowAction::Buffered);
    assert_eq!(c.on_row("r3".to_string()), RowAction::SettleThenPublish);
    let trigger = c.publish_snapshot(&mut st);
    assert_eq!(trigger, "r3".to_string());
    assert!(st.is_complete());
    assert_eq!(
        st.current(),
        vec!["r1".to_string(), "r2".to_string(), "r3".to_string()]
    );
    // Once live, every further row is broadcast only.
    assert_eq!(c.on_row("r4".to_string()), RowAction::Broadcast);
    assert_eq!(
        st.current(),
        vec!["r1".to_string(), "r2".to_string(), "r3".to_string()]
    );
}

#[test]
fn scenario_short_stream_flushes_on_end() {
    // The source ends after two rows, below the threshold: the store
    // completes with those rows and no classifier-triggered broadcast occurs.
    let mut c = Classifier::new();
    let mut st = SnapshotStore::new();
    assert_eq!(c.on_row("r1".to_string()), RowAction::Buffered);
    assert_eq!(c.on_row("r2".to_string()), RowAction::Buffered);
    c.on_source_end(&mut st);
    assert!(st.is_complete());
    assert_eq!(st.current(), vec!["r1".to_string(), "r2".to_string()]);
}

#[test]
fn empty_stream_completes_empty_snapshot() {
    let mut c = Classifier::new();
    let mut st = SnapshotStore::new();
    c.on_source_end(&mut st);
    assert!(st.is_complete());
    assert!(st.current().is_empty());
}

#[test]
fn late_joiner_gets_snapshot_then_live_rows() {
    // A subscriber joining after completion receives exactly the stored rows
    // in stored order during replay, then only rows published afterward.
    let mut reg = Registry::new();
    let mut st = SnapshotStore::new();
    st.record(vec!["a".to_string(), "b".to_string()]);
    let mut s = Session::connect(&mut reg);
    let replay = s.replay_rows(&st);
    assert_eq!(replay, vec!["a".to_string(), "b".to_string()]);
    s.start_streaming();
    reg.publish(&"c".to_string());
    reg.publish(&"d".to_string());
    assert_eq!(
        drain(&mut reg, s.id()),
        vec!["c".to_string(), "d".to_string()]
    );
}

#[test]
fn early_joiner_keeps_queued_rows_and_replays_after_completion() {
    // Connected before completion: live rows queue up; once completion has
    // occurred, the replay step returns the stored snapshot in stored order
    // and the queued rows are still delivered.
    let mut reg = Registry::new();
    let mut st = SnapshotStore::new();
    let mut s = Session::connect(&mut reg);
    reg.publish(&"live1".to_string());
    st.record(vec!["snap1".to_string(), "snap2".to_string()]);
    let replay = s.replay_rows(&st);
    assert_eq!(replay, vec!["snap1".to_string(), "snap2".to_string()]);
    assert_eq!(drain(&mut reg, s.id()), vec!["live1".to_string()]);
}

#[test]
fn replay_skipped_when_incomplete() {
    let mut reg = Registry::new();
    let st = SnapshotStore::new();
    let mut s = Session::connect(&mut reg);
    let replay = s.replay_rows(&st);
    assert!(replay.is_empty());
    assert_eq!(s.state(), SessionState::SnapshotReplay);
}

#[test]
fn replay_happens_once_per_session() {
    // The state machine leaves Connecting on the replay transition and never
    // returns, so a second replay is impossible for the session's lifetime.
    let mut reg = Registry::new();
    let st = SnapshotStore::new();
    let mut s = Session::connect(&mut reg);
    assert_eq!(s.state(), SessionState::Connecting);
    let _ = s.replay_rows(&st);
    assert_ne!(s.state(), SessionState::Connecting);
    s.start_streaming();
    assert_ne!(s.state(), SessionState::Connecting);
    s.begin_close();
    assert_ne!(s.state(), SessionState::Connecting);
    s.finish_close(&mut reg);
    assert_eq!(s.state(), SessionState::Closed);
}

#[test]
fn disconnect_makes_subscriber_ineligible() {
    let mut reg = Registry::new();
    let mut a = Session::connect(&mut reg);
    let b = Session::connect(&mut reg);
    assert_ne!(a.id(), b.id());
    a.finish_close(&mut reg);
    reg.publish(&"row".to_string());
    assert!(drain(&mut reg, a.id()).is_empty());
    assert_eq!(drain(&mut reg, b.id()), vec!["row".to_string()]);
}

#[test]
fn full_queue_disconnects_without_blocking_others() {
    // Fill one subscriber's queue to capacity, then connect another: the next
    // publish drops the full subscriber and still delivers to the other.
    let mut reg = Registry::new();
    let slow = Session::connect(&mut reg);
    for i in 0..QUEUE_CAPACITY {
        reg.publish(&format!("r{}", i));
    }
    let fast = Session::connect(&mut reg);
    reg.publish(&"overflow".to_string());
    assert_eq!(drain(&mut reg, fast.id()), vec!["overflow".to_string()]);
    // The slow subscriber was disconnected: nothing is queued for it any
    // longer and later publishes no longer reach it.
    assert!(drain(&mut reg, slow.id()).is_empty());
    reg.publish(&"later".to_string());
    assert!(drain(&mut reg, slow.id()).is_empty());
    assert_eq!(drain(&mut reg, fast.id()), vec!["later".to_string()]);
}

#[test]
fn per_subscriber_order_is_preserved() {
    let mut reg = Registry::new();
    let s = Session::connect(&mut reg);
    for i in 0..5 {
        reg.publish(&format!("m{}", i));
    }
    assert_eq!(
        drain(&mut reg, s.id()),
        vec![
            "m0".to_string(),
            "m1".to_string(),
            "m2".to_string(),
            "m3".to_string(),
            "m4".to_string()
        ]
    );
    reg.publish(&"after".to_string());
    assert_eq!(drain(&mut reg, s.id()), vec!["after".to_string()]);
}

#[test]
fn ids_strictly_increase_and_are_never_reused() {
    let mut reg = Registry::new();
    let mut a = Session::connect(&mut reg);
    let b = Session::connect(&mut reg);
    assert_eq!(a.id(), 0);
    assert_eq!(b.id(), 1);
    a.finish_close(&mut reg);
    let c = Session::connect(&mut reg);
    assert_eq!(c.id(), 2);
}

#[test]
fn scenario_two_joiners_observe_same_rows_modulo_duplicate() {
    // One subscriber connects before snapshot completion and one after; both
    // end up observing the same cumulative row set, modulo the documented
    // duplicate of the row that triggered completion.
    let mut c = Classifier::new();
    let mut st = SnapshotStore::new();
    let mut reg = Registry::new();

    // Connects before completion: it is registered at once, so it receives
    // live broadcasts even before its replay step runs.
    let mut early = Session::connect(&mut reg);

    for row in ["r1", "r2", "r3"] {
        let action = c.on_row(row.to_string());
        match action {
            RowAction::Buffered => {}
            RowAction::SettleThenPublish => {
                // The settle wait elapsed with no further rows.
                let trigger = c.publish_snapshot(&mut st);
                reg.publish(&trigger);
            }
            RowAction::Broadcast => reg.publish(&row.to_string()),
        }
    }

    // Completion happened between its registration and its replay step, so
    // the early joiner gets the replay on top of its queued live rows.
    let mut early_seen: Vec<String> = early.replay_rows(&st);

    let mut late = Session::connect(&mut reg);
    let mut late_seen: Vec<String> = late.replay_rows(&st);

    for row in ["r4", "r5"] {
        match c.on_row(row.to_string()) {
            RowAction::Broadcast => reg.publish(&row.to_string()),
            _ => unreachable!(),
        }
    }

    early_seen.extend(drain(&mut reg, early.id()));
    late_seen.extend(drain(&mut reg, late.id()));

    // The early joiner saw the completion-triggering row twice: once in the
    // replay and once live (the documented at-least-once duplicate).
    assert_eq!(
        early_seen,
        vec![
            "r1".to_string(),
            "r2".to_string(),
            "r3".to_string(),
            "r3".to_string(),
            "r4".to_string(),
            "r5".to_string()
        ]
    );
    assert_eq!(
        late_seen,
        vec![
            "r1".to_string(),
            "r2".to_string(),
            "r3".to_string(),
            "r4".to_string(),
            "r5".to_string()
        ]
    );
    let early_set: std::collections::BTreeSet<_> = early_seen.iter().collect();
    let late_set: std::collections::BTreeSet<_> = late_seen.iter().collect();
    assert_eq!(early_set, late_set);
}

#[test]
fn frame_reactions() {
    assert_eq!(on_frame(Frame::Close), FrameAction::EndSession);
    assert_eq!(
        on_frame(Frame::Ping(vec![1, 2, 3])),
        FrameAction::SendPong(vec![1, 2, 3])
    );
    assert_eq!(on_frame(Frame::Data), FrameAction::Ignore);
    assert_eq!(on_frame(Frame::ReadError), FrameAction::EndSession);
}
