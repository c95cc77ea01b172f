//! The abstract consensus-engine capability the coordinator owns, and a
//! stub engine that decides an appended entry at once — the reference
//! implementation for exercising the coordination layer, since the real
//! replication algorithm is an external collaborator.
use vstd::prelude::*;
use crate::kv::KeyValue;

verus! {

/// A consensus protocol message as the coordination layer sees it: the
/// participants it travels between, and an opaque serialized body.
#[derive(Debug)]
pub struct PeerMessage {
    pub sender: u64,
    pub receiver: u64,
    pub payload: Vec<u8>,
}

/// The engine was not in a state to accept a proposal.
#[derive(Clone, Copy, Debug, PartialEq, Eq, Structural)]
pub struct AppendError;

/// What the coordinator requires of a consensus engine. The decided log
/// only ever grows, and every entry in it stays at its position: the engine
/// guarantees decided order, the coordinator everything built on it.
pub trait ConsensusEngine: Sized {
    /// The entries decided so far, in decided order.
    spec fn decided(&self) -> Seq<KeyValue>;

    /// The protocol messages waiting to be sent to peers.
    spec fn outgoing(&self) -> Seq<PeerMessage>;

    /// Feed one incoming protocol message into the engine.
    fn handle_incoming(&mut self, msg: PeerMessage)
        ensures
            old(self).decided().is_prefix_of(final(self).decided()),
    ;

    /// Drain the messages the engine currently wants sent. Repeated calls
    /// after no new activity return an empty list.
    fn outgoing_messages(&mut self) -> (r: Vec<PeerMessage>)
        ensures
            r@ == old(self).outgoing(),
            final(self).outgoing() == Seq::<PeerMessage>::empty(),
            final(self).decided() == old(self).decided(),
    ;

    /// Propose a new entry; fails when the engine cannot accept proposals.
    fn append(&mut self, entry: KeyValue) -> (r: Result<(), AppendError>)
        ensures
            old(self).decided().is_prefix_of(final(self).decided()),
    ;

    /// How many entries are decided; non-decreasing across calls.
    fn decided_index(&self) -> (r: usize)
        ensures
            r == self.decided().len(),
    ;

    /// The entries decided at or after `from`, in decided order; an absent
    /// result signals nothing new.
    fn read_decided_suffix(&self, from: usize) -> (r: Option<Vec<KeyValue>>)
        ensures
            match r {
                Some(v) => from <= self.decided().len() && v@ == self.decided().skip(from as int),
                None => from >= self.decided().len(),
            },
    ;

    /// An election timer fired.
    fn election_timeout(&mut self)
        ensures
            old(self).decided().is_prefix_of(final(self).decided()),
    ;

    /// The engine was reconstructed from durable state after an unclean
    /// shutdown; already decided entries survive.
    fn recover_from_crash(&mut self)
        ensures
            final(self).decided() == old(self).decided(),
            final(self).outgoing() == old(self).outgoing(),
    ;
}

/// A single-node stand-in for the consensus engine: an appended entry is
/// decided at once, and each incoming message is answered with an echo to
/// its sender, so fault-injection filtering can be exercised end to end.
pub struct StubEngine {
    log: Vec<KeyValue>,
    queue: Vec<PeerMessage>,
}

impl StubEngine {
    /// A fresh engine with an empty decided log.
    pub fn new() -> (r: StubEngine)
        ensures
            r.decided() == Seq::<KeyValue>::empty(),
            r.outgoing() == Seq::<PeerMessage>::empty(),
    {
        StubEngine { log: Vec::new(), queue: Vec::new() }
    }

    /// An engine reconstructed from a durable log, as after a restart with
    /// an existing recovery directory.
    pub fn with_decided(log: Vec<KeyValue>) -> (r: StubEngine)
        ensures
            r.decided() == log@,
            r.outgoing() == Seq::<PeerMessage>::empty(),
    {
        StubEngine { log, queue: Vec::new() }
    }
}

impl ConsensusEngine for StubEngine {
    closed spec fn decided(&self) -> Seq<KeyValue> {
        self.log@
    }

    closed spec fn outgoing(&self) -> Seq<PeerMessage> {
        self.queue@
    }

    fn handle_incoming(&mut self, msg: PeerMessage) {
        let reply = PeerMessage { sender: msg.receiver, receiver: msg.sender, payload: msg.payload };
        self.queue.push(reply);
        proof {
            assert(self.log@.is_prefix_of(self.log@));
        }
    }

    fn outgoing_messages(&mut self) -> (r: Vec<PeerMessage>) {
        let mut r: Vec<PeerMessage> = Vec::new();
        core::mem::swap(&mut r, &mut self.queue);
        r
    }

    fn append(&mut self, entry: KeyValue) -> (r: Result<(), AppendError>) {
        self.log.push(entry);
        proof {
            assert(old(self).log@.is_prefix_of(self.log@)) by {
                assert(self.log@.take(old(self).log@.len() as int) =~= old(self).log@);
            }
        }
        Ok(())
    }

    fn decided_index(&self) -> (r: usize) {
        self.log.len()
    }

    fn read_decided_suffix(&self, from: usize) -> (r: Option<Vec<KeyValue>>) {
        let n = self.log.len();
        if from > n {
            return None;
        }
        let mut v: Vec<KeyValue> = Vec::new();
        let mut i = from;
        while i < n
            invariant
                n == self.log.len(),
                from <= i <= n,
                v@ == self.log@.subrange(from as int, i as int),
            decreases n - i,
        {
            v.push(self.log[i].clone());
            proof {
                assert(self.log@.subrange(from as int, i + 1) =~= self.log@.subrange(
                    from as int,
                    i as int,
                ).push(self.log@[i as int]));
            }
            i += 1;
        }
        proof {
            assert(v@ =~= self.log@.skip(from as int));
        }
        Some(v)
    }

    fn election_timeout(&mut self) {
        proof {
            assert(self.log@.is_prefix_of(self.log@));
        }
    }

    fn recover_from_crash(&mut self) {
    }
}

} // verus!
