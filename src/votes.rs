use vstd::prelude::*;

use crate::fingerprint::{
    count, is_winner, lemma_count_bound, lemma_count_contains,
    lemma_count_push, lemma_matches_len, lemma_votes_len, lemma_winner_unique, matches_of,
    ranks_over, vote_of, votes_of, winner, Fingerprint, HashRecord, LandmarkHash, Vote,
};

verus! {

/// One bucket of the vote histogram: a song, an alignment delta and its vote count.
#[derive(Debug, Clone, Copy, PartialEq, Eq)]
pub struct Tally {
    pub song: usize,
    pub delta: i128,
    pub votes: usize,
}

impl Tally {
    pub open spec fn key(self) -> Vote {
        (self.song, self.delta as int)
    }
}

/// The histogram of one recognition: a bucket per (song, delta) pair that was voted
/// for, and the bucket that currently ranks first.
pub struct VoteTable {
    entries: Vec<Tally>,
    leader: usize,
    cast: Ghost<Seq<Vote>>,
}

/// `a` ranks at least as high as `b`, by their own counts.
pub open spec fn tally_ranks_over(a: Tally, b: Tally) -> bool {
    ranks_over(a.votes as nat, a.key(), b.votes as nat, b.key())
}

impl VoteTable {
    /// The votes cast so far, in the order they were cast.
    pub closed spec fn cast(&self) -> Seq<Vote> {
        self.cast@
    }

    pub closed spec fn wf(&self) -> bool {
        let e = self.entries@;
        &&& forall|i: int, j: int|
            0 <= i < j < e.len() ==> #[trigger] e[i].key() != #[trigger] e[j].key()
        &&& forall|i: int|
            0 <= i < e.len() ==> #[trigger] e[i].votes == count(self.cast@, e[i].key())
                && e[i].votes > 0
        &&& forall|k: int|
            0 <= k < self.cast@.len() ==> exists|i: int|
                0 <= i < e.len() && #[trigger] e[i].key() == #[trigger] self.cast@[k]
        &&& e.len() > 0 ==> self.leader < e.len()
        &&& forall|i: int|
            0 <= i < e.len() ==> tally_ranks_over(e[self.leader as int], #[trigger] e[i])
        &&& e.len() == 0 <==> self.cast@.len() == 0
    }

    /// An empty histogram.
    pub fn new() -> (t: VoteTable)
        ensures
            t.wf(),
            t.cast() == Seq::<Vote>::empty(),
    {
        VoteTable { entries: Vec::new(), leader: 0, cast: Ghost(Seq::empty()) }
    }

    /// Adds one vote for `song` at alignment `delta`, keeping the leader current.
    pub fn cast_vote(&mut self, song: usize, delta: i128)
        requires
            old(self).wf(),
            old(self).cast().len() < usize::MAX,
        ensures
            final(self).wf(),
            final(self).cast() == old(self).cast().push((song, delta as int)),
    {
        let ghost old_cast = self.cast@;
        let ghost v: Vote = (song, delta as int);
        let ghost new_cast = old_cast.push(v);
        assert forall|x: Vote| #[trigger] count(new_cast, x) == count(old_cast, x) + if v == x {
            1nat
        } else {
            0nat
        } by {
            lemma_count_push(old_cast, v, x);
        }
        proof {
            lemma_count_bound(old_cast, v);
        }
        let mut j: usize = 0;
        let mut found = false;
        while j < self.entries.len() && !found
            invariant
                self.wf(),
                self.cast@ == old_cast,
                v == (song, delta as int),
                j <= self.entries@.len(),
                found ==> j < self.entries@.len() && self.entries@[j as int].key() == v,
                forall|i: int| 0 <= i < j ==> (#[trigger] self.entries@[i]).key() != v,
            decreases self.entries@.len() - j + if found { 0int } else { 1int },
        {
            let t = self.entries[j];
            if t.song == song && t.delta == delta {
                assert(t.key() == v);
                found = true;
            } else {
                assert(t.key() != v);
                j = j + 1;
            }
        }
        let ghost old_entries = self.entries@;
        if found {
            let mut t = self.entries[j];
            t.votes = t.votes + 1;
            self.entries.set(j, t);
        } else {
            self.entries.push(Tally { song, delta, votes: 1 });
            proof {
                assert(count(old_cast, v) == 0) by {
                    if count(old_cast, v) > 0 {
                        lemma_count_contains(old_cast, v);
                        let k = choose|k: int| 0 <= k < old_cast.len() && old_cast[k] == v;
                        let i = choose|i: int|
                            0 <= i < old_entries.len() && old_entries[i].key() == old_cast[k];
                        assert(old_entries[i].key() != v);
                    }
                }
            }
        }
        self.cast = Ghost(new_cast);
        let ghost e = self.entries@;
        let ghost prev_leader = self.leader;
        if j == self.leader || self.entries.len() == 1 {
            self.leader = j;
        } else {
            let a = self.entries[j];
            let b = self.entries[self.leader];
            if a.votes > b.votes || (a.votes == b.votes && (a.delta < b.delta || (a.delta
                == b.delta && a.song <= b.song))) {
                self.leader = j;
            }
        }
        proof {
            assert(e[j as int].key() == v);
            assert forall|i: int| 0 <= i < e.len() implies e[i].votes == count(new_cast, e[i].key())
                && e[i].votes > 0 by {
                if i != j {
                    assert(old_entries[i] == e[i]);
                    assert(j == old_entries.len() || old_entries[i].key() != old_entries[
                        j as int
                    ].key());
                }
            }
            assert forall|k: int| 0 <= k < new_cast.len() implies exists|i: int|
                0 <= i < e.len() && #[trigger] e[i].key() == #[trigger] new_cast[k] by {
                if k == old_cast.len() {
                    assert(e[j as int].key() == new_cast[k]);
                } else {
                    assert(new_cast[k] == old_cast[k]);
                    let i = choose|i: int|
                        0 <= i < old_entries.len() && old_entries[i].key() == old_cast[k];
                    assert(e[i].key() == new_cast[k]);
                }
            }
            assert forall|i: int, i2: int| 0 <= i < i2 < e.len() implies #[trigger] e[i].key()
                != #[trigger] e[i2].key() by {
                if i2 == j && j == old_entries.len() {
                    assert(old_entries[i].key() != v);
                } else {
                    assert(old_entries[i].key() == e[i].key());
                    assert(old_entries[i2].key() == e[i2].key());
                }
            }
            assert forall|i: int| 0 <= i < e.len() implies tally_ranks_over(
                e[self.leader as int],
                #[trigger] e[i],
            ) by {
                if i != j && e.len() > 1 {
                    assert(e[i] == old_entries[i]);
                    assert(tally_ranks_over(old_entries[prev_leader as int], old_entries[i]));
                }
            }
        }
    }

    /// Adds the votes that the query fingerprint `f` casts against `recs`: one for
    /// each record with the same hash, at the delta of the record's time over `f`'s.
    pub fn add_matches<H: LandmarkHash>(&mut self, f: &Fingerprint<H>, recs: &Vec<HashRecord<H>>)
        requires
            old(self).wf(),
            old(self).cast().len() + recs@.len() <= usize::MAX,
        ensures
            final(self).wf(),
            final(self).cast() == old(self).cast() + matches_of(*f, recs@),
    {
        let ghost start = self.cast@;
        let mut i: usize = 0;
        while i < recs.len()
            invariant
                self.wf(),
                i <= recs@.len(),
                start.len() + recs@.len() <= usize::MAX,
                self.cast@ == start + matches_of(*f, recs@.take(i as int)),
            decreases recs@.len() - i,
        {
            let ghost before = recs@.take(i as int);
            let ghost after = recs@.take(i + 1);
            assert(after.drop_last() =~= before);
            assert(after.last() == recs@[i as int]);
            proof {
                lemma_matches_len(*f, before);
            }
            let r = &recs[i];
            if r.hash.matches(&f.hash) {
                let delta: i128 = r.time as i128 - f.time as i128;
                self.cast_vote(r.song, delta);
                assert(vote_of(*f, *r) == (r.song, delta as int));
                assert(self.cast@ =~= start + matches_of(*f, after));
            } else {
                assert(matches_of(*f, after) == matches_of(*f, before));
            }
            i = i + 1;
        }
        assert(recs@.take(recs@.len() as int) =~= recs@);
    }

    /// The bucket that ranks first, with its vote count; `None` when no vote was cast.
    pub fn leader(&self) -> (r: Option<Tally>)
        requires
            self.wf(),
        ensures
            r.is_none() <==> self.cast().len() == 0,
            r matches Some(t) ==> {
                &&& winner(self.cast()) == Some(t.key())
                &&& is_winner(self.cast(), t.key())
                &&& t.votes == count(self.cast(), t.key())
            },
    {
        if self.entries.len() == 0 {
            None
        } else {
            let t = self.entries[self.leader];
            proof {
                let e = self.entries@;
                let votes = self.cast@;
                assert forall|k: int| 0 <= k < votes.len() implies #[trigger] ranks_over(
                    count(votes, t.key()),
                    t.key(),
                    count(votes, votes[k]),
                    votes[k],
                ) by {
                    let i = choose|i: int| 0 <= i < e.len() && e[i].key() == votes[k];
                    assert(tally_ranks_over(t, e[i]));
                }
                lemma_winner_unique(votes, t.key());
            }
            Some(t)
        }
    }
}

/// Runs time-aligned histogram voting of the query `q` against `recs` and returns the
/// winning bucket: the (song, delta) pair with the most votes, the smaller delta and
/// then the smaller song identity breaking ties. `None` when no hash collides.
pub fn best_alignment<H: LandmarkHash>(
    q: &Vec<Fingerprint<H>>,
    recs: &Vec<HashRecord<H>>,
) -> (r: Option<Tally>)
    requires
        q@.len() * recs@.len() <= usize::MAX,
    ensures
        r.is_none() <==> votes_of(q@, recs@).len() == 0,
        r matches Some(t) ==> {
            &&& winner(votes_of(q@, recs@)) == Some(t.key())
            &&& is_winner(votes_of(q@, recs@), t.key())
            &&& t.votes == count(votes_of(q@, recs@), t.key())
        },
{
    let mut table = VoteTable::new();
    let mut i: usize = 0;
    while i < q.len()
        invariant
            table.wf(),
            i <= q@.len(),
            q@.len() * recs@.len() <= usize::MAX,
            table.cast() == votes_of(q@.take(i as int), recs@),
        decreases q@.len() - i,
    {
        let ghost before = q@.take(i as int);
        let ghost after = q@.take(i + 1);
        assert(after.drop_last() =~= before);
        proof {
            lemma_votes_len(before, recs@);
            let n = i as int;
            let m = recs@.len() as int;
            let l = q@.len() as int;
            assert(n * m + m <= l * m) by (nonlinear_arith)
                requires
                    n < l,
                    0 <= m,
            ;
        }
        table.add_matches(&q[i], recs);
        i = i + 1;
    }
    assert(q@.take(q@.len() as int) =~= q@);
    table.leader()
}

} // verus!
