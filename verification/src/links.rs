//! The fault injector's state: the set of peers this node treats as
//! unreachable, mutated only by management commands and consulted by the
//! coordinator before it forwards or accepts peer traffic.
use vstd::prelude::*;

verus! {

/// Whether the link to node `n` is currently broken.
pub open spec fn is_broken(links: Seq<u64>, n: u64) -> bool {
    links.contains(n)
}

/// A management command, as the management listener hands it over.
#[derive(Clone, Copy, Debug, PartialEq, Eq, Structural)]
pub enum ManCommand {
    /// Treat the link to the named node as broken, in both directions.
    BreakLink(u64),
    /// Forget every broken link.
    RestoreLinks,
    /// Report the currently broken links.
    GetLinks,
}

/// The broken-link record: node identifiers in the order their breaks were
/// commanded. A node may appear more than once; it is broken as long as it
/// appears at all.
pub struct BrokenLinks {
    ids: Vec<u64>,
}

impl View for BrokenLinks {
    type V = Seq<u64>;

    closed spec fn view(&self) -> Seq<u64> {
        self.ids@
    }
}

impl BrokenLinks {
    /// A fresh record: no link is broken.
    pub fn new() -> (r: BrokenLinks)
        ensures
            r@ == Seq::<u64>::empty(),
    {
        BrokenLinks { ids: Vec::new() }
    }

    /// Wrap a list of node identifiers, as answered to a link-status query.
    pub fn from_ids(ids: Vec<u64>) -> (r: BrokenLinks)
        ensures
            r@ == ids@,
    {
        BrokenLinks { ids }
    }

    /// Record the link to `n` as broken.
    pub fn break_link(&mut self, n: u64)
        ensures
            final(self)@ == old(self)@.push(n),
            is_broken(final(self)@, n),
    {
        self.ids.push(n);
        proof {
            assert(self.ids@[self.ids@.len() - 1] == n);
        }
    }

    /// Forget every broken link.
    pub fn restore_links(&mut self)
        ensures
            final(self)@ == Seq::<u64>::empty(),
            forall|n: u64| !is_broken(final(self)@, n),
    {
        self.ids.clear();
    }

    /// The current record, for a `get_links` reply or a coordinator query.
    pub fn get_links(&self) -> (r: Vec<u64>)
        ensures
            r@ == self@,
    {
        let n = self.ids.len();
        let mut r: Vec<u64> = Vec::new();
        let mut i: usize = 0;
        while i < n
            invariant
                n == self.ids.len(),
                i <= n,
                r@ == self.ids@.take(i as int),
            decreases n - i,
        {
            r.push(self.ids[i]);
            proof {
                assert(self.ids@.take(i + 1) =~= self.ids@.take(i as int).push(
                    self.ids@[i as int],
                ));
            }
            i += 1;
        }
        proof {
            assert(self.ids@.take(n as int) =~= self.ids@);
        }
        r
    }

    /// Whether the link to `n` is broken, answered synchronously so the
    /// coordinator can make a per-message forward-or-drop decision.
    pub fn is_broken_link(&self, n: u64) -> (r: bool)
        ensures
            r == is_broken(self@, n),
    {
        let len = self.ids.len();
        let mut i: usize = 0;
        while i < len
            invariant
                len == self.ids.len(),
                i <= len,
                forall|j: int| 0 <= j < i ==> self.ids@[j] != n,
            decreases len - i,
        {
            if self.ids[i] == n {
                return true;
            }
            i += 1;
        }
        false
    }

    /// Apply one management command; a `get_links` command, and only it,
    /// yields the list to deliver to the management-response address.
    pub fn apply_command(&mut self, cmd: ManCommand) -> (r: Option<Vec<u64>>)
        ensures
            match cmd {
                ManCommand::BreakLink(n) => final(self)@ == old(self)@.push(n) && r is None,
                ManCommand::RestoreLinks => final(self)@ == Seq::<u64>::empty() && r is None,
                ManCommand::GetLinks => *final(self) == *old(self) && (match r {
                    Some(v) => v@ == final(self)@,
                    None => false,
                }),
            },
    {
        match cmd {
            ManCommand::BreakLink(n) => {
                self.break_link(n);
                None
            },
            ManCommand::RestoreLinks => {
                self.restore_links();
                None
            },
            ManCommand::GetLinks => Some(self.get_links()),
        }
    }
}

/// Breaking the link to `n` makes it broken; every link already broken stays
/// broken under a further break; and after a restore no link is broken, so
/// both directions are enabled again.
pub proof fn law_break_and_restore(links: Seq<u64>, n: u64)
    ensures
        is_broken(links.push(n), n),
        forall|m: u64| is_broken(links, m) ==> is_broken(links.push(n), m),
        forall|m: u64| !is_broken(Seq::<u64>::empty(), m),
{
    assert(links.push(n)[links.len() as int] == n);
    assert forall|m: u64| is_broken(links, m) implies is_broken(links.push(n), m) by {
        let i = choose|i: int| 0 <= i < links.len() && links[i] == m;
        assert(links.push(n)[i] == m);
    }
}

} // verus!
