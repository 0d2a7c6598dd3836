//! Votes to evict a client, keyed by the target's IPv4 address.
use vstd::prelude::*;
use crate::address::Ipv4;
use crate::directory::{ClientDirectory, ClientRecord, below_votes, holds_ip, without_ip};

verus! {

/// The ballots of `s` against target `t`.
pub open spec fn ballots_for(s: Seq<(u32, u32)>, t: u32) -> Seq<(u32, u32)> {
    s.filter(|b: (u32, u32)| b.0 == t)
}

/// The ballots of `s` that are not against target `t`.
pub open spec fn without_target(s: Seq<(u32, u32)>, t: u32) -> Seq<(u32, u32)> {
    s.filter(|b: (u32, u32)| b.0 != t)
}

proof fn lemma_push_ballot(s: Seq<(u32, u32)>, b: (u32, u32), t: u32)
    ensures
        ballots_for(s.push(b), t) == if b.0 == t {
            ballots_for(s, t).push(b)
        } else {
            ballots_for(s, t)
        },
{
    reveal(Seq::filter);
    assert(s.push(b).drop_last() =~= s);
}

/// Discarding the ballots against `t` leaves those against every other target.
pub proof fn lemma_clear_target(s: Seq<(u32, u32)>, t: u32, u: u32)
    ensures
        ballots_for(without_target(s, t), u) == if u == t {
            Seq::<(u32, u32)>::empty()
        } else {
            ballots_for(s, u)
        },
    decreases s.len(),
{
    reveal(Seq::filter);
    if s.len() > 0 {
        lemma_clear_target(s.drop_last(), t, u);
        let w = without_target(s.drop_last(), t);
        if s.last().0 != t {
            assert(w.push(s.last()).drop_last() =~= w);
        }
    }
}

/// What a vote to evict came to.
#[derive(Debug, PartialEq, Eq, Structural)]
pub enum DropOutcome {
    /// The vote was counted; the target stays.
    Recorded,
    /// This voter had already voted against the target; nothing changed.
    Duplicate,
    /// The target's records were removed and its ballots discarded.
    Removed,
    /// No record has the target address; nothing changed.
    Absent,
}

/// The pending votes, as (target, voter) pairs of IPv4 addresses.
pub struct EvictionQuorum {
    ballots: Vec<(u32, u32)>,
}

impl View for EvictionQuorum {
    type V = Seq<(u32, u32)>;

    closed spec fn view(&self) -> Seq<(u32, u32)> {
        self.ballots@
    }
}

impl EvictionQuorum {
    /// No votes at all.
    pub fn new() -> (r: EvictionQuorum)
        ensures
            r@ == Seq::<(u32, u32)>::empty(),
    {
        EvictionQuorum { ballots: Vec::new() }
    }

    /// How many votes stand against `target`.
    pub fn count(&self, target: Ipv4) -> (r: usize)
        ensures
            r == ballots_for(self@, target.bits).len(),
    {
        let mut n: usize = 0;
        let mut i: usize = 0;
        while i < self.ballots.len()
            invariant
                0 <= i <= self.ballots@.len(),
                n == ballots_for(self.ballots@.take(i as int), target.bits).len(),
                n <= i,
            decreases self.ballots@.len() - i,
        {
            proof {
                assert(self.ballots@.take(i as int + 1) =~= self.ballots@.take(i as int).push(
                    self.ballots@[i as int],
                ));
                lemma_push_ballot(self.ballots@.take(i as int), self.ballots@[i as int], target.bits);
            }
            if self.ballots[i].0 == target.bits {
                n = n + 1;
            }
            i = i + 1;
        }
        assert(self.ballots@.take(self.ballots@.len() as int) =~= self.ballots@);
        n
    }

    /// Whether `voter` has voted against `target`.
    pub fn has_voted(&self, target: Ipv4, voter: Ipv4) -> (r: bool)
        ensures
            r == self@.contains((target.bits, voter.bits)),
    {
        let mut i: usize = 0;
        while i < self.ballots.len()
            invariant
                0 <= i <= self.ballots@.len(),
                forall|j: int| 0 <= j < i ==> self.ballots@[j] != (target.bits, voter.bits),
            decreases self.ballots@.len() - i,
        {
            if self.ballots[i].0 == target.bits && self.ballots[i].1 == voter.bits {
                assert(self@[i as int] == (target.bits, voter.bits));
                return true;
            }
            i = i + 1;
        }
        false
    }

    /// Adds the vote of `voter` against `target`.
    fn add(&mut self, target: Ipv4, voter: Ipv4)
        ensures
            final(self)@ == old(self)@.push((target.bits, voter.bits)),
    {
        self.ballots.push((target.bits, voter.bits));
    }

    /// Discards every vote against `target`.
    pub fn clear(&mut self, target: Ipv4)
        ensures
            final(self)@ == without_target(old(self)@, target.bits),
    {
        let mut kept: Vec<(u32, u32)> = Vec::new();
        let mut i: usize = 0;
        while i < self.ballots.len()
            invariant
                0 <= i <= self.ballots@.len(),
                kept@ == without_target(self.ballots@.take(i as int), target.bits),
            decreases self.ballots@.len() - i,
        {
            proof {
                reveal(Seq::filter);
                assert(self.ballots@.take(i as int + 1).drop_last() =~= self.ballots@.take(
                    i as int,
                ));
            }
            if self.ballots[i].0 != target.bits {
                kept.push(self.ballots[i]);
            }
            i = i + 1;
        }
        assert(self.ballots@.take(self.ballots@.len() as int) =~= self.ballots@);
        self.ballots = kept;
    }
    /// Applies a new threshold at once: every target with at least
    /// `threshold` votes is evicted from `directory` and its ballots are
    /// discarded; everything else stays, in order.
    pub fn evict_at_threshold(&mut self, directory: &mut ClientDirectory, threshold: u8)
        requires
            old(directory).wf(),
            threshold >= 1,
        ensures
            final(directory).wf(),
            final(directory).spec_capacity() == old(directory).spec_capacity(),
            final(directory)@ == below_votes(old(directory)@, old(self)@, threshold as int),
            forall|t: u32|
                #[trigger] ballots_for(final(self)@, t) == if ballots_for(old(self)@, t).len()
                    >= threshold {
                    Seq::<(u32, u32)>::empty()
                } else {
                    ballots_for(old(self)@, t)
                },
            below_threshold(final(self)@, threshold as int),
    {
        broadcast use vstd::seq_lib::group_filter_ensures;

        directory.keep_below_votes(self, threshold);
        let mut snapshot: Vec<(u32, u32)> = Vec::new();
        let mut k: usize = 0;
        while k < self.ballots.len()
            invariant
                0 <= k <= self.ballots@.len(),
                snapshot@ == self.ballots@.take(k as int),
            decreases self.ballots@.len() - k,
        {
            snapshot.push(self.ballots[k]);
            assert(snapshot@ =~= self.ballots@.take(k as int + 1));
            k = k + 1;
        }
        assert(snapshot@ =~= self.ballots@);
        let ghost old_q = self@;
        let mut i: usize = 0;
        while i < snapshot.len()
            invariant
                snapshot@ == old_q,
                old_q == old(self)@,
                threshold >= 1,
                0 <= i <= snapshot@.len(),
                forall|t: u32|
                    #[trigger] ballots_for(self@, t) == if (exists|j: int|
                        0 <= j < i && snapshot@[j].0 == t) && ballots_for(old_q, t).len()
                        >= threshold {
                        Seq::<(u32, u32)>::empty()
                    } else {
                        ballots_for(old_q, t)
                    },
            decreases snapshot@.len() - i,
        {
            let t = snapshot[i].0;
            let n = self.count(Ipv4 { bits: t });
            let ghost q0 = self@;
            if n >= threshold as usize {
                self.clear(Ipv4 { bits: t });
            }
            proof {
                assert forall|u: u32| #[trigger] ballots_for(self@, u) == if (exists|j: int|
                    0 <= j < i + 1 && snapshot@[j].0 == u) && ballots_for(old_q, u).len()
                    >= threshold {
                    Seq::<(u32, u32)>::empty()
                } else {
                    ballots_for(old_q, u)
                } by {
                    if n >= threshold as usize {
                        lemma_clear_target(q0, t, u);
                    }
                    if u == t {
                        assert(snapshot@[i as int].0 == u);
                    } else if exists|j: int| 0 <= j < i + 1 && snapshot@[j].0 == u {
                        let j = choose|j: int| 0 <= j < i + 1 && snapshot@[j].0 == u;
                        assert(j < i);
                    }
                }
            }
            i = i + 1;
        }
        proof {
            assert forall|t: u32| ballots_for(old_q, t).len() >= threshold implies exists|j: int|
                0 <= j < snapshot@.len() && snapshot@[j].0 == t by {
                let b = ballots_for(old_q, t);
                assert(b.contains(b[0]));
                old_q.lemma_filter_contains_rev(|x: (u32, u32)| x.0 == t, b[0]);
                let j = choose|j: int| 0 <= j < old_q.len() && old_q[j] == b[0];
                assert(snapshot@[j].0 == t);
            }
        }
    }
}

/// Every target has fewer than `threshold` votes.
pub open spec fn below_threshold(s: Seq<(u32, u32)>, threshold: int) -> bool {
    forall|t: u32| #[trigger] ballots_for(s, t).len() < threshold
}

/// What a vote by `voter` against `target` does, from directory `d` and
/// ballots `q` to outcome `o`, directory `d2` and ballots `q2`.
pub open spec fn vote_post(
    d: Seq<ClientRecord>,
    q: Seq<(u32, u32)>,
    target: u32,
    voter: u32,
    threshold: u8,
    verification: bool,
    o: DropOutcome,
    d2: Seq<ClientRecord>,
    q2: Seq<(u32, u32)>,
) -> bool {
    let removed = d2 == without_ip(d, target) && q2 == without_target(q, target);
    if !holds_ip(d, target) {
        o == DropOutcome::Absent && d2 == d && q2 == q
    } else if !verification {
        o == DropOutcome::Removed && removed
    } else if q.contains((target, voter)) {
        o == DropOutcome::Duplicate && d2 == d && q2 == q
    } else if ballots_for(q, target).len() + 1 >= threshold {
        o == DropOutcome::Removed && removed
    } else {
        o == DropOutcome::Recorded && d2 == d && q2 == q.push((target, voter))
    }
}

/// A vote by `voter` to evict the clients at `target`. With verification
/// off the target goes at once; with it on, the vote counts once per voter
/// and the target goes when its votes reach `threshold`, its ballots then
/// being discarded.
pub fn cast_vote(
    directory: &mut ClientDirectory,
    quorum: &mut EvictionQuorum,
    target: Ipv4,
    voter: Ipv4,
    threshold: u8,
    verification: bool,
) -> (r: DropOutcome)
    requires
        old(directory).wf(),
    ensures
        final(directory).wf(),
        final(directory).spec_capacity() == old(directory).spec_capacity(),
        vote_post(
            old(directory)@,
            old(quorum)@,
            target.bits,
            voter.bits,
            threshold,
            verification,
            r,
            final(directory)@,
            final(quorum)@,
        ),
        below_threshold(old(quorum)@, threshold as int) ==> below_threshold(
            final(quorum)@,
            threshold as int,
        ),
{
    if !directory.holds(target) {
        return DropOutcome::Absent;
    }
    if verification {
        if quorum.has_voted(target, voter) {
            return DropOutcome::Duplicate;
        }
        let n = quorum.count(target);
        if threshold > 0 && n < threshold as usize - 1 {
            quorum.add(target, voter);
            proof {
                assert forall|t: u32|
                    below_threshold(old(quorum)@, threshold as int) implies #[trigger] ballots_for(
                    quorum@,
                    t,
                ).len() < threshold by {
                    lemma_push_ballot(old(quorum)@, (target.bits, voter.bits), t);
                }
            }
            return DropOutcome::Recorded;
        }
    }
    directory.remove(target);
    quorum.clear(target);
    proof {
        assert forall|t: u32|
            below_threshold(old(quorum)@, threshold as int) implies #[trigger] ballots_for(
            quorum@,
            t,
        ).len() < threshold by {
            lemma_clear_target(old(quorum)@, target.bits, t);
            assert(ballots_for(old(quorum)@, t).len() < threshold);
        }
    }
    DropOutcome::Removed
}

} // verus!
