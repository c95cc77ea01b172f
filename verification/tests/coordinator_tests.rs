use replikv::coordinator::{Action, Coordinator, Event};
use replikv::engine::{PeerMessage, StubEngine};
use replikv::kv::KeyValue;
use replikv::links::{BrokenLinks, ManCommand};

fn kv(k: &str, v: &str) -> KeyValue {
    KeyValue { key: k.to_string(), value: v.to_string() }
}

fn msg(sender: u64, receiver: u64) -> PeerMessage {
    PeerMessage { sender, receiver, payload: vec![1, 2, 3] }
}

fn reply_of(acts: &[Action]) -> String {
    assert_eq!(acts.len(), 1);
    match &acts[0] {
        Action::ClientReply(v) => v.clone(),
        other => panic!("expected a client reply, got {:?}", other),
    }
}

fn sent_receivers(acts: &[Action]) -> Vec<u64> {
    acts.iter()
        .map(|a| match a {
            Action::SendPeer(m) => m.receiver,
            other => panic!("expected a peer send, got {:?}", other),
        })
        .collect()
}

#[test]
fn write_then_read_returns_value() {
    let mut node = Coordinator::new(StubEngine::new(), false);
    let links = BrokenLinks::new();
    let acts = node.handle_event(Event::ClientWrite(kv("foo", "bar")), &links);
    assert!(acts.is_empty());
    let acts = node.handle_event(Event::ClientRead("foo".to_string()), &links);
    assert_eq!(reply_of(&acts), "bar");
    assert_eq!(node.kv_store().get("foo").unwrap(), "bar");
}

#[test]
fn read_before_any_write_is_not_found() {
    let mut node = Coordinator::new(StubEngine::new(), false);
    let links = BrokenLinks::new();
    let acts = node.handle_event(Event::ClientRead("foo".to_string()), &links);
    assert_eq!(reply_of(&acts), "");
}

#[test]
fn decided_order_governs_reads() {
    let mut node = Coordinator::new(StubEngine::new(), false);
    let links = BrokenLinks::new();
    node.handle_event(Event::ClientWrite(kv("k", "v1")), &links);
    node.handle_event(Event::ClientWrite(kv("k", "v2")), &links);
    let acts = node.handle_event(Event::ClientRead("k".to_string()), &links);
    assert_eq!(reply_of(&acts), "v2");
}

#[test]
fn delete_clears_value_but_keeps_key() {
    let mut node = Coordinator::new(StubEngine::new(), false);
    let links = BrokenLinks::new();
    node.handle_event(Event::ClientWrite(kv("foo", "bar")), &links);
    node.handle_event(Event::ClientWrite(kv("foo", "")), &links);
    let acts = node.handle_event(Event::ClientRead("foo".to_string()), &links);
    assert_eq!(reply_of(&acts), "");
    assert_eq!(node.kv_store().get("foo").unwrap(), "");
}

#[test]
fn apply_is_blocked_by_watermark() {
    let mut node = Coordinator::new(StubEngine::new(), false);
    let links = BrokenLinks::new();
    node.handle_event(Event::ClientWrite(kv("foo", "bar")), &links);
    let applied = node.applied_index();
    assert_eq!(applied, 1);
    // nothing new is decided: further events re-apply nothing
    node.handle_event(Event::ElectionTimeout, &links);
    node.handle_event(Event::ElectionTimeout, &links);
    assert_eq!(node.applied_index(), applied);
    assert_eq!(node.kv_store().get("foo").unwrap(), "bar");
}

#[test]
fn broken_incoming_link_drops_messages() {
    let mut node = Coordinator::new(StubEngine::new(), false);
    let mut links = BrokenLinks::new();
    links.break_link(2);
    // the stub echoes every accepted message; a dropped one leaves nothing
    let acts = node.handle_event(Event::IncomingPeerMessage(msg(2, 1)), &links);
    assert!(acts.is_empty());
    let acts = node.handle_event(Event::FlushOutgoing, &links);
    assert!(acts.is_empty());
    // traffic from an unbroken peer still flows
    node.handle_event(Event::IncomingPeerMessage(msg(3, 1)), &links);
    let acts = node.handle_event(Event::FlushOutgoing, &links);
    assert_eq!(sent_receivers(&acts), vec![3]);
}

#[test]
fn broken_outgoing_link_skips_sends() {
    let mut node = Coordinator::new(StubEngine::new(), false);
    let mut links = BrokenLinks::new();
    // queue echoes to peers 2 and 3, then break 2: only 3 is delivered
    node.handle_event(Event::IncomingPeerMessage(msg(2, 1)), &links);
    node.handle_event(Event::IncomingPeerMessage(msg(3, 1)), &links);
    links.break_link(2);
    let acts = node.handle_event(Event::FlushOutgoing, &links);
    assert_eq!(sent_receivers(&acts), vec![3]);
}

#[test]
fn restore_links_reenables_both_directions() {
    let mut node = Coordinator::new(StubEngine::new(), false);
    let mut links = BrokenLinks::new();
    links.apply_command(ManCommand::BreakLink(2));
    let acts = node.handle_event(Event::IncomingPeerMessage(msg(2, 1)), &links);
    assert!(acts.is_empty());
    links.apply_command(ManCommand::RestoreLinks);
    node.handle_event(Event::IncomingPeerMessage(msg(2, 1)), &links);
    let acts = node.handle_event(Event::FlushOutgoing, &links);
    assert_eq!(sent_receivers(&acts), vec![2]);
}

#[test]
fn get_links_reports_current_set() {
    let mut links = BrokenLinks::new();
    assert_eq!(links.apply_command(ManCommand::BreakLink(2)), None);
    assert_eq!(links.apply_command(ManCommand::BreakLink(5)), None);
    assert_eq!(links.apply_command(ManCommand::GetLinks), Some(vec![2, 5]));
    assert!(links.is_broken_link(2));
    assert!(!links.is_broken_link(3));
    assert_eq!(links.apply_command(ManCommand::RestoreLinks), None);
    assert_eq!(links.apply_command(ManCommand::GetLinks), Some(vec![]));
}

#[test]
fn three_nodes_route_messages_in_order() {
    // three coordinators, no broken links: node 1 answers traffic from both
    // peers, and the replies go out in the order they were produced
    let mut n1 = Coordinator::new(StubEngine::new(), false);
    let links = BrokenLinks::new();
    n1.handle_event(Event::IncomingPeerMessage(msg(2, 1)), &links);
    n1.handle_event(Event::IncomingPeerMessage(msg(3, 1)), &links);
    let acts = n1.handle_event(Event::FlushOutgoing, &links);
    assert_eq!(sent_receivers(&acts), vec![2, 3]);
    // a delivered message reaches the peer's own coordinator unharmed
    let mut n2 = Coordinator::new(StubEngine::new(), false);
    for a in acts {
        match a {
            Action::SendPeer(m) if m.receiver == 2 => {
                let replies = {
                    n2.handle_event(Event::IncomingPeerMessage(m), &links);
                    n2.handle_event(Event::FlushOutgoing, &links)
                };
                assert_eq!(sent_receivers(&replies), vec![1]);
            },
            _ => {},
        }
    }
}

#[test]
fn recovery_replays_decided_entries() {
    // a node restarted with an existing recovery directory: the engine is
    // rebuilt from its durable log, and the store is filled by replay alone
    let durable = vec![kv("foo", "bar"), kv("baz", "qux"), kv("foo", "latest")];
    let engine = StubEngine::with_decided(durable);
    let mut node = Coordinator::new(engine, true);
    assert_eq!(node.applied_index(), 0);
    let links = BrokenLinks::new();
    node.handle_event(Event::ElectionTimeout, &links);
    assert_eq!(node.applied_index(), 3);
    assert_eq!(node.kv_store().get("foo").unwrap(), "latest");
    assert_eq!(node.kv_store().get("baz").unwrap(), "qux");
}
