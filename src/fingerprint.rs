use vstd::prelude::*;

verus! {

/// A landmark hash value: an opaque token that is only compared and copied. Both a
/// fixed-width integer and a string token serve; one store uses one of them for
/// indexing and querying alike.
pub trait LandmarkHash: Sized {
    /// Whether two values are the same landmark.
    spec fn same_hash(&self, other: &Self) -> bool;

    fn matches(&self, other: &Self) -> (r: bool)
        ensures
            r == self.same_hash(other),
    ;

    fn copy_hash(&self) -> (r: Self)
        ensures
            r == *self,
    ;
}

impl LandmarkHash for String {
    open spec fn same_hash(&self, other: &Self) -> bool {
        self@ == other@
    }

    fn matches(&self, other: &Self) -> (r: bool) {
        *self == *other
    }

    fn copy_hash(&self) -> (r: Self) {
        self.clone()
    }
}

impl LandmarkHash for u64 {
    open spec fn same_hash(&self, other: &Self) -> bool {
        *self == *other
    }

    fn matches(&self, other: &Self) -> (r: bool) {
        *self == *other
    }

    fn copy_hash(&self) -> (r: Self) {
        *self
    }
}

/// One landmark hash observed at a time offset within a song or a clip.
#[derive(Debug, Clone)]
pub struct Fingerprint<H> {
    pub hash: H,
    pub time: usize,
}

/// A stored landmark: a hash at a time offset within the song `song`.
#[derive(Debug, Clone)]
pub struct HashRecord<H> {
    pub hash: H,
    pub time: usize,
    pub song: usize,
}

/// A vote: a song identity and the alignment delta `t_song - t_query`.
pub type Vote = (usize, int);

/// The vote cast by a stored record `r` that collides with the query fingerprint `f`.
pub open spec fn vote_of<H: LandmarkHash>(f: Fingerprint<H>, r: HashRecord<H>) -> Vote {
    (r.song, r.time as int - f.time as int)
}

/// The votes cast for one query fingerprint, one per stored record with its hash,
/// in the order of the records.
pub open spec fn matches_of<H: LandmarkHash>(
    f: Fingerprint<H>,
    recs: Seq<HashRecord<H>>,
) -> Seq<Vote>
    decreases recs.len(),
{
    if recs.len() == 0 {
        Seq::empty()
    } else {
        let rest = matches_of(f, recs.drop_last());
        if recs.last().hash.same_hash(&f.hash) {
            rest.push(vote_of(f, recs.last()))
        } else {
            rest
        }
    }
}

/// All votes cast by a query against the stored records.
pub open spec fn votes_of<H: LandmarkHash>(
    q: Seq<Fingerprint<H>>,
    recs: Seq<HashRecord<H>>,
) -> Seq<Vote>
    decreases q.len(),
{
    if q.len() == 0 {
        Seq::empty()
    } else {
        votes_of(q.drop_last(), recs) + matches_of(q.last(), recs)
    }
}

/// How many times `v` occurs in `votes`: the size of its histogram bucket.
pub open spec fn count(votes: Seq<Vote>, v: Vote) -> nat
    decreases votes.len(),
{
    if votes.len() == 0 {
        0
    } else {
        count(votes.drop_last(), v) + if votes.last() == v { 1nat } else { 0nat }
    }
}

/// The ranking of alignments: more votes first, then the smaller delta, then the
/// smaller song identity. `a` ranks at least as high as `b`.
pub open spec fn ranks_over(ca: nat, a: Vote, cb: nat, b: Vote) -> bool {
    ca > cb || (ca == cb && (a.1 < b.1 || (a.1 == b.1 && a.0 <= b.0)))
}

/// `v` is a cast vote that ranks at least as high as every cast vote.
pub open spec fn is_winner(votes: Seq<Vote>, v: Vote) -> bool {
    &&& count(votes, v) > 0
    &&& forall|k: int|
        0 <= k < votes.len() ==> #[trigger] ranks_over(
            count(votes, v),
            v,
            count(votes, votes[k]),
            votes[k],
        )
}

/// The winning alignment of a vote list, if any vote was cast.
pub open spec fn winner(votes: Seq<Vote>) -> Option<Vote> {
    if votes.len() == 0 {
        None
    } else {
        Some(choose|v: Vote| is_winner(votes, v))
    }
}

/// The song a query is recognized as among the stored records, if any.
pub open spec fn recognized_song<H: LandmarkHash>(
    q: Seq<Fingerprint<H>>,
    recs: Seq<HashRecord<H>>,
) -> Option<usize> {
    match winner(votes_of(q, recs)) {
        Some(v) => Some(v.0),
        None => None,
    }
}

/// A bucket that occurs is counted at least once.
pub proof fn lemma_count_contains(votes: Seq<Vote>, v: Vote)
    requires
        count(votes, v) > 0,
    ensures
        exists|k: int| 0 <= k < votes.len() && votes[k] == v,
    decreases votes.len(),
{
    if votes.last() == v {
        assert(votes[votes.len() - 1] == v);
    } else {
        lemma_count_contains(votes.drop_last(), v);
        let k = choose|k: int| 0 <= k < votes.len() - 1 && votes.drop_last()[k] == v;
        assert(votes[k] == v);
    }
}

/// A cast vote is counted in its bucket.
pub proof fn lemma_count_of_member(votes: Seq<Vote>, k: int)
    requires
        0 <= k < votes.len(),
    ensures
        count(votes, votes[k]) > 0,
    decreases votes.len(),
{
    if k < votes.len() - 1 {
        assert(votes.drop_last()[k] == votes[k]);
        lemma_count_of_member(votes.drop_last(), k);
    }
}

/// No bucket holds more votes than were cast.
pub proof fn lemma_count_bound(votes: Seq<Vote>, v: Vote)
    ensures
        count(votes, v) <= votes.len(),
    decreases votes.len(),
{
    if votes.len() > 0 {
        lemma_count_bound(votes.drop_last(), v);
    }
}

/// Casting one more vote adds one to its own bucket and leaves the others alone.
pub proof fn lemma_count_push(votes: Seq<Vote>, x: Vote, v: Vote)
    ensures
        count(votes.push(x), v) == count(votes, v) + if x == v { 1nat } else { 0nat },
{
    assert(votes.push(x).drop_last() =~= votes);
}

/// The winner of a non-empty vote list is the one vote that ranks over all others.
pub proof fn lemma_winner_unique(votes: Seq<Vote>, v: Vote)
    requires
        is_winner(votes, v),
    ensures
        winner(votes) == Some(v),
{
    lemma_count_contains(votes, v);
    let w = choose|w: Vote| is_winner(votes, w);
    assert(is_winner(votes, w));
    lemma_count_contains(votes, w);
    let kv = choose|k: int| 0 <= k < votes.len() && votes[k] == v;
    let kw = choose|k: int| 0 <= k < votes.len() && votes[k] == w;
    assert(ranks_over(count(votes, v), v, count(votes, votes[kw]), votes[kw]));
    assert(ranks_over(count(votes, w), w, count(votes, votes[kv]), votes[kv]));
}

/// Each query fingerprint casts at most one vote per stored record.
pub proof fn lemma_matches_len<H: LandmarkHash>(f: Fingerprint<H>, recs: Seq<HashRecord<H>>)
    ensures
        matches_of(f, recs).len() <= recs.len(),
    decreases recs.len(),
{
    if recs.len() > 0 {
        lemma_matches_len(f, recs.drop_last());
    }
}

/// A query casts at most one vote per pair of query fingerprint and stored record.
pub proof fn lemma_votes_len<H: LandmarkHash>(q: Seq<Fingerprint<H>>, recs: Seq<HashRecord<H>>)
    ensures
        votes_of(q, recs).len() <= q.len() * recs.len(),
    decreases q.len(),
{
    if q.len() > 0 {
        lemma_votes_len(q.drop_last(), recs);
        lemma_matches_len(q.last(), recs);
        let n = q.len() as int;
        let m = recs.len() as int;
        assert((n - 1) * m + m == n * m) by (nonlinear_arith);
    }
}

/// Every non-empty vote list has a winner.
pub proof fn lemma_winner_exists(votes: Seq<Vote>)
    requires
        votes.len() > 0,
    ensures
        exists|v: Vote| is_winner(votes, v),
    decreases votes.len(),
{
    let init = votes.drop_last();
    let x = votes.last();
    assert(init.push(x) =~= votes);
    assert forall|y: Vote| #[trigger] count(votes, y) == count(init, y) + if x == y {
        1nat
    } else {
        0nat
    } by {
        lemma_count_push(init, x, y);
    }
    if init.len() == 0 {
        assert forall|k: int| 0 <= k < votes.len() implies #[trigger] ranks_over(
            count(votes, x),
            x,
            count(votes, votes[k]),
            votes[k],
        ) by {
            assert(votes[k] == x);
        }
        assert(is_winner(votes, x));
    } else {
        lemma_winner_exists(init);
        let w = choose|w: Vote| is_winner(init, w);
        if ranks_over(count(votes, w), w, count(votes, x), x) {
            assert forall|k: int| 0 <= k < votes.len() implies #[trigger] ranks_over(
                count(votes, w),
                w,
                count(votes, votes[k]),
                votes[k],
            ) by {
                if k < init.len() {
                    assert(votes[k] == init[k]);
                    assert(ranks_over(count(init, w), w, count(init, init[k]), init[k]));
                }
            }
            assert(is_winner(votes, w));
        } else {
            assert forall|k: int| 0 <= k < votes.len() implies #[trigger] ranks_over(
                count(votes, x),
                x,
                count(votes, votes[k]),
                votes[k],
            ) by {
                if k < init.len() && votes[k] != x {
                    assert(votes[k] == init[k]);
                    assert(ranks_over(count(init, w), w, count(init, init[k]), init[k]));
                }
            }
            assert(is_winner(votes, x));
        }
    }
}

} // verus!
