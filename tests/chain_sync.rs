use n2c_source::chainsync::{ChainSyncAgent, SyncPhase};
use n2c_source::rollback::{ChainEvent, Point, Position, RollbackBuffer, SyncError};

fn pt(slot: u64) -> Point {
    Point::Specific(slot, slot.to_be_bytes().to_vec())
}

fn fwd(slot: u64) -> ChainEvent {
    ChainEvent::RollForward(pt(slot))
}

fn back(slot: u64) -> ChainEvent {
    ChainEvent::RollBackward(pt(slot))
}

fn slots(events: &[ChainEvent]) -> Vec<(bool, Position)> {
    events
        .iter()
        .map(|e| match e {
            ChainEvent::RollForward(p) => (true, p.position()),
            ChainEvent::RollBackward(p) => (false, p.position()),
        })
        .collect()
}

#[test]
fn depth_two_emits_first_block_after_third() {
    let mut buf = RollbackBuffer::new(2);
    assert!(buf.apply(fwd(1)).unwrap().is_empty());
    assert!(buf.apply(fwd(2)).unwrap().is_empty());
    let out = buf.apply(fwd(3)).unwrap();
    assert_eq!(slots(&out), vec![(true, Position::Slot(1))]);
    match &out[0] {
        ChainEvent::RollForward(Point::Specific(1, h)) => assert_eq!(h, &1u64.to_be_bytes().to_vec()),
        _ => panic!("expected the block at slot 1"),
    }
    assert_eq!(buf.waiting(), vec![Position::Slot(2), Position::Slot(3)]);
}

#[test]
fn rollback_to_emitted_point_is_not_passed_on() {
    let mut buf = RollbackBuffer::new(2);
    buf.apply(fwd(1)).unwrap();
    buf.apply(fwd(2)).unwrap();
    buf.apply(fwd(3)).unwrap();
    let out = buf.apply(back(1)).unwrap();
    assert!(out.is_empty());
    assert_eq!(buf.len(), 0);
}

#[test]
fn rollback_to_origin_before_buffered_blocks() {
    let mut buf = RollbackBuffer::new(2);
    buf.apply(fwd(1)).unwrap();
    buf.apply(fwd(2)).unwrap();
    let out = buf.apply(ChainEvent::RollBackward(Point::Origin)).unwrap();
    assert_eq!(slots(&out), vec![(false, Position::Origin)]);
    assert_eq!(buf.len(), 0);
}

#[test]
fn zero_depth_passes_every_block_at_once() {
    let mut buf = RollbackBuffer::new(0);
    for s in 1..=5u64 {
        let out = buf.apply(fwd(s)).unwrap();
        assert_eq!(slots(&out), vec![(true, Position::Slot(s))]);
        assert_eq!(buf.len(), 0);
    }
}

#[test]
fn rollback_behind_emitted_block_is_passed_on_once() {
    let mut buf = RollbackBuffer::new(1);
    buf.apply(fwd(10)).unwrap();
    buf.apply(fwd(20)).unwrap();
    buf.apply(fwd(30)).unwrap();
    // slots 10 and 20 are downstream, 30 waits
    let out = buf.apply(back(15)).unwrap();
    assert_eq!(slots(&out), vec![(false, Position::Slot(15))]);
    assert_eq!(buf.len(), 0);
}

#[test]
fn rollback_inside_buffer_keeps_older_blocks() {
    let mut buf = RollbackBuffer::new(3);
    buf.apply(fwd(1)).unwrap();
    buf.apply(fwd(2)).unwrap();
    buf.apply(fwd(3)).unwrap();
    let out = buf.apply(back(2)).unwrap();
    assert!(out.is_empty());
    assert_eq!(buf.waiting(), vec![Position::Slot(1), Position::Slot(2)]);
    let out = buf.apply(fwd(4)).unwrap();
    assert!(out.is_empty());
    let out = buf.apply(fwd(5)).unwrap();
    assert_eq!(slots(&out), vec![(true, Position::Slot(1))]);
}

#[test]
fn replayed_output_matches_raw_chain() {
    // Raw stream: 1 2 3 4, back to 2, 5 6 7, back to 6.
    let raw = vec![fwd(1), fwd(2), fwd(3), fwd(4), back(2), fwd(5), fwd(6), fwd(7), back(6)];
    let mut buf = RollbackBuffer::new(2);
    let mut down: Vec<u64> = Vec::new();
    let mut chain: Vec<u64> = Vec::new();
    for e in raw {
        match &e {
            ChainEvent::RollForward(Point::Specific(s, _)) => chain.push(*s),
            ChainEvent::RollBackward(Point::Specific(s, _)) => chain.retain(|x| x <= s),
            _ => unreachable!(),
        }
        for o in buf.apply(e).unwrap() {
            match o {
                ChainEvent::RollForward(Point::Specific(s, _)) => down.push(s),
                ChainEvent::RollBackward(Point::Specific(s, _)) => down.retain(|x| *x <= s),
                ChainEvent::RollBackward(Point::Origin) => down.clear(),
                _ => unreachable!(),
            }
        }
    }
    let mut rebuilt = down.clone();
    for p in buf.waiting() {
        match p {
            Position::Slot(s) => rebuilt.push(s),
            Position::Origin => unreachable!(),
        }
    }
    assert_eq!(rebuilt, chain);
    assert_eq!(chain, vec![1, 2, 5, 6]);
    assert!(buf.len() <= 2);
}

#[test]
fn non_increasing_roll_forward_is_a_violation() {
    let mut buf = RollbackBuffer::new(2);
    buf.apply(fwd(5)).unwrap();
    assert_eq!(buf.apply(fwd(5)).unwrap_err(), SyncError::ProtocolViolation);
    assert_eq!(buf.apply(fwd(3)).unwrap_err(), SyncError::ProtocolViolation);
    assert_eq!(buf.len(), 1);
}

#[test]
fn agent_faults_when_no_intersection() {
    let mut agent = ChainSyncAgent::new(2);
    assert_eq!(agent.phase(), SyncPhase::Intersecting);
    assert_eq!(agent.on_intersect(None).unwrap_err(), SyncError::IntersectNotFound);
    assert_eq!(agent.phase(), SyncPhase::Faulted);
}

#[test]
fn agent_syncs_after_intersection() {
    let mut agent = ChainSyncAgent::new(1);
    agent.on_intersect(Some(pt(0))).unwrap();
    assert_eq!(agent.phase(), SyncPhase::Syncing);
    assert!(agent.on_update(fwd(1)).unwrap().is_empty());
    let out = agent.on_update(fwd(2)).unwrap();
    assert_eq!(slots(&out), vec![(true, Position::Slot(1))]);
    assert_eq!(agent.on_update(fwd(2)).unwrap_err(), SyncError::ProtocolViolation);
    assert_eq!(agent.phase(), SyncPhase::Faulted);
}

#[test]
fn rollback_behind_buffer_but_after_emitted_block_is_passed_on() {
    let mut buf = RollbackBuffer::new(2);
    buf.apply(fwd(1)).unwrap();
    buf.apply(fwd(5)).unwrap();
    let out = buf.apply(fwd(6)).unwrap();
    assert_eq!(slots(&out), vec![(true, Position::Slot(1))]);
    let out = buf.apply(back(3)).unwrap();
    assert_eq!(slots(&out), vec![(false, Position::Slot(3))]);
    assert_eq!(buf.len(), 0);
    // The chain now continues after slot 3.
    assert!(buf.apply(fwd(4)).unwrap().is_empty());
}
