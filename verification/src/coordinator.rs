//! The core actor: exclusive owner of one consensus engine. It processes
//! one inbound event at a time, consults the broken-link record before
//! accepting or forwarding peer traffic, and after every event applies the
//! newly decided suffix to the local key-value store.
use vstd::prelude::*;
use crate::engine::{ConsensusEngine, PeerMessage};
use crate::kv::{as_map, lemma_as_map_concat, lookup, lookup_latest, KVStore, KeyValue};
use crate::links::{is_broken, BrokenLinks};

verus! {

/// One inbound event on the coordinator's single channel.
#[derive(Debug)]
pub enum Event {
    /// A serialized consensus message arrived from a peer.
    IncomingPeerMessage(PeerMessage),
    /// The flush timer fired: drain and deliver outgoing messages.
    FlushOutgoing,
    /// A client asked for the value of a key.
    ClientRead(String),
    /// A client proposed a write (a delete is a write of the empty string).
    ClientWrite(KeyValue),
    /// The election timer fired.
    ElectionTimeout,
}

/// What the caller of the event loop must carry out after an event: deliver
/// a message to a peer, or a reply to the client-response address.
#[derive(Debug)]
pub enum Action {
    /// Serialize and send this message to its receiver's peer address,
    /// unless the connection fails — then it is dropped, with no retry.
    SendPeer(PeerMessage),
    /// Deliver this value (empty string: not found) to the client-response
    /// address.
    ClientReply(String),
}

/// The outgoing messages that pass the broken-link filter, in order: those
/// whose receiver is not currently broken.
pub open spec fn keep_outgoing(msgs: Seq<PeerMessage>, links: Seq<u64>) -> Seq<PeerMessage>
    decreases msgs.len(),
{
    if msgs.len() == 0 {
        Seq::<PeerMessage>::empty()
    } else {
        let rest = keep_outgoing(msgs.drop_last(), links);
        if is_broken(links, msgs.last().receiver) {
            rest
        } else {
            rest.push(msgs.last())
        }
    }
}

/// Nothing that passes the filter is addressed to a broken link; in
/// particular, after `break_link(n)` no message reaches `n`. And with no
/// link broken — as right after `restore_links` — everything passes.
pub proof fn law_filter_blocks_broken(msgs: Seq<PeerMessage>, links: Seq<u64>)
    ensures
        forall|i: int|
            0 <= i < keep_outgoing(msgs, links).len() ==> !is_broken(
                links,
                keep_outgoing(msgs, links)[i].receiver,
            ),
        keep_outgoing(msgs, Seq::<u64>::empty()) =~= msgs,
    decreases msgs.len(),
{
    if msgs.len() > 0 {
        law_filter_blocks_broken(msgs.drop_last(), links);
        law_filter_blocks_broken(msgs.drop_last(), Seq::<u64>::empty());
        let keep = keep_outgoing(msgs, links);
        let rest = keep_outgoing(msgs.drop_last(), links);
        assert forall|i: int| 0 <= i < keep.len() implies !is_broken(links, keep[i].receiver) by {
            if !is_broken(links, msgs.last().receiver) {
                assert(keep == rest.push(msgs.last()));
                if i < rest.len() {
                    assert(keep[i] == rest[i]);
                }
            }
        }
        assert(keep_outgoing(msgs.drop_last(), Seq::<u64>::empty()).push(msgs.last())
            =~= msgs);
    }
}

/// The coordinator: the engine it exclusively owns, the store of applied
/// writes, and the watermark separating applied from still-unapplied
/// decided entries.
pub struct Coordinator<E: ConsensusEngine> {
    engine: E,
    applied: usize,
    store: KVStore,
}

impl<E: ConsensusEngine> Coordinator<E> {
    /// The engine's decided log.
    pub closed spec fn log(&self) -> Seq<KeyValue> {
        self.engine.decided()
    }

    /// The engine's pending outgoing messages.
    pub closed spec fn pending(&self) -> Seq<PeerMessage> {
        self.engine.outgoing()
    }

    /// The engine value itself.
    pub closed spec fn engine_at(&self) -> E {
        self.engine
    }

    /// How many decided entries have been applied locally.
    pub closed spec fn watermark(&self) -> nat {
        self.applied as nat
    }

    /// The local key-value mapping.
    pub closed spec fn kv(&self) -> Map<Seq<char>, Seq<char>> {
        self.store@
    }

    /// The apply step never re-applies or skips a position: the store holds
    /// exactly the writes decided below the watermark.
    pub closed spec fn wf(&self) -> bool {
        &&& self.watermark() <= self.log().len()
        &&& self.kv() == as_map(self.log().take(self.applied as int))
    }

    /// Take ownership of the engine. On a crash-recovery boot — the node's
    /// recovery directory already existed — the engine is told it was
    /// reconstructed from durable state. Nothing is applied yet: the first
    /// event replays the whole decided log into the store.
    pub fn new(engine: E, recovered: bool) -> (r: Coordinator<E>)
        ensures
            r.wf(),
            r.log() == engine.decided(),
            r.pending() == engine.outgoing(),
            r.watermark() == 0,
            r.kv() == Map::<Seq<char>, Seq<char>>::empty(),
    {
        let mut engine = engine;
        if recovered {
            engine.recover_from_crash();
        }
        let r = Coordinator { engine, applied: 0, store: KVStore::new() };
        proof {
            assert(r.log().take(0) =~= Seq::<KeyValue>::empty());
        }
        r
    }

    /// Bring the store up to date with the decided log. Once the watermark
    /// has reached a decided suffix, a second application changes nothing:
    /// the watermark blocks re-application.
    pub fn apply_decided(&mut self)
        requires
            old(self).wf(),
        ensures
            final(self).wf(),
            final(self).engine_at() == old(self).engine_at(),
            final(self).watermark() == final(self).log().len(),
            final(self).kv() == as_map(final(self).log()),
            old(self).watermark() == old(self).log().len() ==> *final(self) == *old(self),
    {
        let n = self.engine.decided_index();
        if n > self.applied {
            match self.engine.read_decided_suffix(self.applied) {
                Some(suffix) => {
                    proof {
                        lemma_as_map_concat(
                            self.log().take(self.applied as int),
                            self.log().skip(self.applied as int),
                        );
                        assert(self.log().take(self.applied as int) + self.log().skip(
                            self.applied as int,
                        ) =~= self.log());
                    }
                    self.store.apply(&suffix);
                    self.applied = n;
                },
                None => {
                    proof {
                        assert(false);
                    }
                },
            }
        } else {
            proof {
                assert(self.log().take(self.applied as int) =~= self.log());
            }
        }
        proof {
            assert(final(self).log().take(final(self).applied as int) =~= final(self).log());
        }
    }

    /// Process one inbound event, in arrival order, and then apply whatever
    /// became decided. The returned actions are all the sending this event
    /// asks of the caller:
    /// - a peer message is dropped unheard when its sender's link is broken;
    /// - drained outgoing messages to broken receivers are skipped, the rest
    ///   are delivered in order;
    /// - a read is answered from the decided log, most recent entry first,
    ///   with the empty string when the key was never written;
    /// - a rejected write is dropped without a negative acknowledgment.
    pub fn handle_event(&mut self, ev: Event, links: &BrokenLinks) -> (acts: Vec<Action>)
        requires
            old(self).wf(),
        ensures
            final(self).wf(),
            old(self).log().is_prefix_of(final(self).log()),
            final(self).watermark() == final(self).log().len(),
            final(self).kv() == as_map(final(self).log()),
            match ev {
                Event::IncomingPeerMessage(m) => {
                    &&& is_broken(links@, m.sender) ==> final(self).engine_at() == old(
                        self,
                    ).engine_at()
                    &&& acts@ == Seq::<Action>::empty()
                },
                Event::FlushOutgoing => {
                    &&& final(self).log() == old(self).log()
                    &&& final(self).pending() == Seq::<PeerMessage>::empty()
                    &&& acts@ == keep_outgoing(old(self).pending(), links@).map_values(
                        |m: PeerMessage| Action::SendPeer(m),
                    )
                },
                Event::ClientRead(k) => {
                    &&& final(self).engine_at() == old(self).engine_at()
                    &&& acts@.len() == 1
                    &&& acts@[0] matches Action::ClientReply(v) && v@ == lookup(
                        old(self).log(),
                        k@,
                    )
                },
                Event::ClientWrite(kv) => acts@ == Seq::<Action>::empty(),
                Event::ElectionTimeout => acts@ == Seq::<Action>::empty(),
            },
    {
        let mut acts: Vec<Action> = Vec::new();
        match ev {
            Event::IncomingPeerMessage(m) => {
                if !links.is_broken_link(m.sender) {
                    self.engine.handle_incoming(m);
                }
            },
            Event::FlushOutgoing => {
                let mut msgs = self.engine.outgoing_messages();
                let ghost all = msgs@;
                let ghost done: int = 0;
                while msgs.len() > 0
                    invariant
                        0 <= done <= all.len(),
                        msgs@ == all.skip(done),
                        acts@ == keep_outgoing(all.take(done), links@).map_values(
                            |m: PeerMessage| Action::SendPeer(m),
                        ),
                    decreases msgs.len(),
                {
                    let m = msgs.remove(0);
                    proof {
                        assert(m == all[done]);
                        assert(msgs@ =~= all.skip(done + 1));
                        assert(all.take(done + 1).drop_last() =~= all.take(done));
                        assert(all.take(done + 1).last() == all[done]);
                    }
                    if !links.is_broken_link(m.receiver) {
                        acts.push(Action::SendPeer(m));
                        proof {
                            assert(acts@ =~= keep_outgoing(all.take(done + 1), links@).map_values(
                                |m: PeerMessage| Action::SendPeer(m),
                            ));
                        }
                    }
                    proof {
                        done = done + 1;
                    }
                }
                proof {
                    assert(all.take(done) =~= all);
                }
            },
            Event::ClientRead(k) => {
                match self.engine.read_decided_suffix(0) {
                    Some(entries) => {
                        proof {
                            assert(self.log().skip(0) =~= self.log());
                        }
                        let value = lookup_latest(&entries, k.as_str());
                        acts.push(Action::ClientReply(value));
                    },
                    None => {
                        // nothing decided yet: the key was never written
                        acts.push(Action::ClientReply(String::new()));
                        proof {
                            assert(self.log().len() == 0);
                        }
                    },
                }
            },
            Event::ClientWrite(kv) => {
                match self.engine.append(kv) {
                    Ok(()) => {},
                    Err(_) => {
                        // the engine rejected the proposal; per the error
                        // policy this is dropped with no acknowledgment
                    },
                }
            },
            Event::ElectionTimeout => {
                self.engine.election_timeout();
            },
        }
        proof {
            lemma_prefix_take(old(self).log(), self.log(), old(self).applied as int);
        }
        self.apply_decided();
        acts
    }

    /// The store of applied writes, as the external gateway reads it.
    pub fn kv_store(&self) -> (r: &KVStore)
        ensures
            r@ == self.kv(),
    {
        &self.store
    }

    /// How many decided entries have been applied locally.
    pub fn applied_index(&self) -> (r: usize)
        ensures
            r == self.watermark(),
    {
        self.applied
    }
}

proof fn lemma_prefix_take(a: Seq<KeyValue>, b: Seq<KeyValue>, w: int)
    requires
        a.is_prefix_of(b),
        0 <= w <= a.len(),
    ensures
        b.take(w) == a.take(w),
{
    assert(b.take(w) =~= a.take(w));
}

} // verus!
