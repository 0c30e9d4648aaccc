//! What holds of indexing and recognition together.
use vstd::prelude::*;

use crate::fingerprint::{
    count, is_winner, lemma_count_contains, lemma_count_of_member, lemma_winner_exists,
    lemma_winner_unique, matches_of, ranks_over, recognized_song, vote_of, votes_of, winner,
    Fingerprint, HashRecord, LandmarkHash, Vote,
};
use crate::store::{recognized_name, records_for};

verus! {

/// If every record with `f`'s hash belongs to the song `id`, so does every vote of `f`.
pub proof fn lemma_matches_for_song<H: LandmarkHash>(
    f: Fingerprint<H>,
    recs: Seq<HashRecord<H>>,
    id: usize,
)
    requires
        forall|j: int|
            0 <= j < recs.len() && (#[trigger] recs[j]).hash.same_hash(&f.hash) ==> recs[j].song
                == id,
    ensures
        forall|k: int|
            0 <= k < matches_of(f, recs).len() ==> (#[trigger] matches_of(f, recs)[k]).0 == id,
    decreases recs.len(),
{
    if recs.len() > 0 {
        let init = recs.drop_last();
        assert forall|j: int|
            0 <= j < init.len() && (#[trigger] init[j]).hash.same_hash(&f.hash) implies init[j].song
                == id by {
            assert(init[j] == recs[j]);
        }
        lemma_matches_for_song(f, init, id);
        let rest = matches_of(f, init);
        let all = matches_of(f, recs);
        assert(recs.last() == recs[recs.len() - 1]);
        assert forall|k: int| 0 <= k < all.len() implies (#[trigger] all[k]).0 == id by {
            if k < rest.len() {
                assert(all[k] == rest[k]);
            } else {
                assert(all[k] == vote_of(f, recs.last()));
            }
        }
    }
}

/// If every record whose hash some query fingerprint has belongs to the song `id`,
/// every vote of the query is for `id`.
pub proof fn lemma_votes_for_song<H: LandmarkHash>(
    q: Seq<Fingerprint<H>>,
    recs: Seq<HashRecord<H>>,
    id: usize,
)
    requires
        forall|i: int, j: int|
            0 <= i < q.len() && 0 <= j < recs.len() && (#[trigger] recs[j]).hash.same_hash(
                &(#[trigger] q[i]).hash,
            ) ==> recs[j].song == id,
    ensures
        forall|k: int|
            0 <= k < votes_of(q, recs).len() ==> (#[trigger] votes_of(q, recs)[k]).0 == id,
    decreases q.len(),
{
    if q.len() > 0 {
        let init = q.drop_last();
        assert forall|i: int, j: int|
            0 <= i < init.len() && 0 <= j < recs.len() && (#[trigger] recs[j]).hash.same_hash(
                &(#[trigger] init[i]).hash,
            ) implies recs[j].song == id by {
            assert(init[i] == q[i]);
        }
        lemma_votes_for_song(init, recs, id);
        assert forall|j: int|
            0 <= j < recs.len() && (#[trigger] recs[j]).hash.same_hash(&q.last().hash)
                implies recs[j].song == id by {
            assert(q.last() == q[q.len() - 1]);
        }
        lemma_matches_for_song(q.last(), recs, id);
        let a = votes_of(init, recs);
        let b = matches_of(q.last(), recs);
        assert forall|k: int| 0 <= k < (a + b).len() implies (#[trigger] (a + b)[k]).0 == id by {
            if k >= a.len() {
                assert((a + b)[k] == b[k - a.len()]);
            } else {
                assert((a + b)[k] == a[k]);
            }
        }
    }
}

/// A record with `f`'s hash casts a vote.
pub proof fn lemma_matches_nonempty<H: LandmarkHash>(
    f: Fingerprint<H>,
    recs: Seq<HashRecord<H>>,
    j: int,
)
    requires
        0 <= j < recs.len(),
        recs[j].hash.same_hash(&f.hash),
    ensures
        matches_of(f, recs).len() > 0,
    decreases recs.len(),
{
    if j < recs.len() - 1 {
        assert(recs.drop_last()[j] == recs[j]);
        lemma_matches_nonempty(f, recs.drop_last(), j);
    }
}

/// A query fingerprint whose hash is stored casts a vote.
pub proof fn lemma_votes_nonempty<H: LandmarkHash>(
    q: Seq<Fingerprint<H>>,
    recs: Seq<HashRecord<H>>,
    i: int,
    j: int,
)
    requires
        0 <= i < q.len(),
        0 <= j < recs.len(),
        recs[j].hash.same_hash(&q[i].hash),
    ensures
        votes_of(q, recs).len() > 0,
    decreases q.len(),
{
    if i == q.len() - 1 {
        lemma_matches_nonempty(q.last(), recs, j);
    } else {
        assert(q.drop_last()[i] == q[i]);
        lemma_votes_nonempty(q.drop_last(), recs, i, j);
    }
}

/// No record has `f`'s hash: `f` casts no vote.
pub proof fn lemma_matches_empty<H: LandmarkHash>(f: Fingerprint<H>, recs: Seq<HashRecord<H>>)
    requires
        forall|j: int| 0 <= j < recs.len() ==> !(#[trigger] recs[j]).hash.same_hash(&f.hash),
    ensures
        matches_of(f, recs).len() == 0,
    decreases recs.len(),
{
    if recs.len() > 0 {
        let init = recs.drop_last();
        assert forall|j: int| 0 <= j < init.len() implies !(#[trigger] init[j]).hash.same_hash(
            &f.hash,
        ) by {
            assert(init[j] == recs[j]);
        }
        lemma_matches_empty(f, init);
        assert(recs.last() == recs[recs.len() - 1]);
    }
}

/// Round trip: after a song is indexed with fingerprints `fps`, a non-empty query
/// whose hashes all come from `fps` (the same set, or a time-shifted part of it) is
/// recognized as that song, provided none of the query's hashes was stored before.
pub proof fn lemma_round_trip<H: LandmarkHash>(
    names: Seq<Seq<char>>,
    recs: Seq<HashRecord<H>>,
    song: Seq<char>,
    fps: Seq<Fingerprint<H>>,
    q: Seq<Fingerprint<H>>,
)
    requires
        names.len() < usize::MAX,
        q.len() > 0,
        forall|i: int| 0 <= i < q.len() ==> exists|j: int|
            0 <= j < fps.len() && (#[trigger] fps[j]).hash.same_hash(&(#[trigger] q[i]).hash),
        forall|i: int, j: int|
            0 <= i < q.len() && 0 <= j < recs.len() ==> !(#[trigger] recs[j]).hash.same_hash(
                &(#[trigger] q[i]).hash,
            ),
    ensures
        recognized_name(
            names.push(song),
            recs + records_for(fps, (names.len() + 1) as usize),
            q,
        ) == Some(song),
{
    let id = (names.len() + 1) as usize;
    let added = records_for(fps, id);
    let all = recs + added;
    assert forall|i: int, j: int|
        0 <= i < q.len() && 0 <= j < all.len() && (#[trigger] all[j]).hash.same_hash(
            &(#[trigger] q[i]).hash,
        ) implies all[j].song == id by {
        if j < recs.len() {
            assert(all[j] == recs[j]);
        } else {
            assert(all[j] == added[j - recs.len()]);
        }
    }
    lemma_votes_for_song(q, all, id);
    let j0 = choose|j: int| 0 <= j < fps.len() && (#[trigger] fps[j]).hash.same_hash(&q[0].hash);
    assert(all[recs.len() + j0] == added[j0]);
    lemma_votes_nonempty(q, all, 0, recs.len() + j0);
    let votes = votes_of(q, all);
    lemma_winner_exists(votes);
    let w = choose|w: Vote| is_winner(votes, w);
    lemma_winner_unique(votes, w);
    lemma_count_contains(votes, w);
    let k = choose|k: int| 0 <= k < votes.len() && votes[k] == w;
    assert(votes[k].0 == id);
}

/// No false match: a query none of whose hashes is stored is recognized as nothing.
pub proof fn lemma_disjoint_no_match<H: LandmarkHash>(
    recs: Seq<HashRecord<H>>,
    q: Seq<Fingerprint<H>>,
)
    requires
        forall|i: int, j: int|
            0 <= i < q.len() && 0 <= j < recs.len() ==> !(#[trigger] recs[j]).hash.same_hash(
                &(#[trigger] q[i]).hash,
            ),
    ensures
        recognized_song(q, recs) == None::<usize>,
    decreases q.len(),
{
    if q.len() > 0 {
        let init = q.drop_last();
        assert forall|i: int, j: int|
            0 <= i < init.len() && 0 <= j < recs.len() implies !(#[trigger] recs[j]).hash.same_hash(
                &(#[trigger] init[i]).hash,
            ) by {
            assert(init[i] == q[i]);
        }
        lemma_disjoint_no_match(recs, init);
        assert(votes_of(init, recs).len() == 0);
        assert forall|j: int| 0 <= j < recs.len() implies !(#[trigger] recs[j]).hash.same_hash(
            &q.last().hash,
        ) by {
            assert(q.last() == q[q.len() - 1]);
        }
        lemma_matches_empty(q.last(), recs);
    }
}

/// Noise tolerance: an alignment that holds more votes than any other bucket wins,
/// whatever other hashes the query holds.
pub proof fn lemma_strongest_alignment_wins<H: LandmarkHash>(
    q: Seq<Fingerprint<H>>,
    recs: Seq<HashRecord<H>>,
    v: Vote,
)
    requires
        count(votes_of(q, recs), v) > 0,
        forall|k: int|
            0 <= k < votes_of(q, recs).len() && #[trigger] votes_of(q, recs)[k] != v ==> count(
                votes_of(q, recs),
                votes_of(q, recs)[k],
            ) < count(votes_of(q, recs), v),
    ensures
        recognized_song(q, recs) == Some(v.0),
{
    let votes = votes_of(q, recs);
    assert forall|k: int| 0 <= k < votes.len() implies #[trigger] ranks_over(
        count(votes, v),
        v,
        count(votes, votes[k]),
        votes[k],
    ) by {
        if votes[k] != v {
            assert(count(votes, votes[k]) < count(votes, v));
        }
    }
    lemma_winner_unique(votes, v);
}

/// Tie-break: when two alignments `a` and `b` share the highest vote count and `a`
/// has the smaller delta, `b` does not win; the winner has that count and a delta no
/// larger than `a`'s.
pub proof fn lemma_tie_prefers_smaller_delta<H: LandmarkHash>(
    q: Seq<Fingerprint<H>>,
    recs: Seq<HashRecord<H>>,
    a: Vote,
    b: Vote,
)
    requires
        count(votes_of(q, recs), a) > 0,
        count(votes_of(q, recs), b) == count(votes_of(q, recs), a),
        a.1 < b.1,
        forall|k: int|
            0 <= k < votes_of(q, recs).len() ==> count(
                votes_of(q, recs),
                #[trigger] votes_of(q, recs)[k],
            ) <= count(votes_of(q, recs), a),
    ensures
        winner(votes_of(q, recs)) != Some(b),
        winner(votes_of(q, recs)) matches Some(w) ==> count(votes_of(q, recs), w) == count(
            votes_of(q, recs),
            a,
        ) && w.1 <= a.1,
{
    let votes = votes_of(q, recs);
    lemma_count_contains(votes, a);
    let ka = choose|k: int| 0 <= k < votes.len() && votes[k] == a;
    lemma_winner_exists(votes);
    let w = choose|w: Vote| is_winner(votes, w);
    lemma_winner_unique(votes, w);
    assert(ranks_over(count(votes, w), w, count(votes, votes[ka]), votes[ka]));
    lemma_count_contains(votes, w);
}

/// Indexing the same song twice makes two songs with distinct identities that both
/// carry its name, each with its own copy of the rows: nothing is merged.
pub proof fn lemma_reindex_distinct<H: LandmarkHash>(
    names: Seq<Seq<char>>,
    recs: Seq<HashRecord<H>>,
    song: Seq<char>,
    fps: Seq<Fingerprint<H>>,
)
    requires
        names.len() + 1 < usize::MAX,
    ensures
        ({
            let first = (names.len() + 1) as usize;
            let second = (names.len() + 2) as usize;
            let after = names.push(song).push(song);
            let rows = recs + records_for(fps, first) + records_for(fps, second);
            &&& first != second
            &&& after[first - 1] == song
            &&& after[second - 1] == song
            &&& rows.len() == recs.len() + 2 * fps.len()
            &&& forall|i: int|
                0 <= i < fps.len() ==> (#[trigger] rows[recs.len() + i]).song == first && rows[recs.len()
                    + fps.len() + i].song == second && rows[recs.len() + i].hash == fps[i].hash
                    && rows[recs.len() + fps.len() + i].hash == fps[i].hash
        }),
{
    let first = (names.len() + 1) as usize;
    let second = (names.len() + 2) as usize;
    let rows = recs + records_for(fps, first) + records_for(fps, second);
    assert forall|i: int| 0 <= i < fps.len() implies (#[trigger] rows[recs.len() + i]).song == first
        && rows[recs.len() + fps.len() + i].song == second && rows[recs.len() + i].hash == fps[i].hash
        && rows[recs.len() + fps.len() + i].hash == fps[i].hash by {
        assert(rows[recs.len() + i] == records_for(fps, first)[i]);
        assert(rows[recs.len() + fps.len() + i] == records_for(fps, second)[i]);
    }
}

/// The winner depends on the histogram alone: two vote lists with the same count in
/// every bucket, such as the votes of one query cast in two orders, have the same
/// winner.
pub proof fn lemma_winner_order_independent(a: Seq<Vote>, b: Seq<Vote>)
    requires
        forall|v: Vote| #[trigger] count(a, v) == count(b, v),
    ensures
        winner(a) == winner(b),
{
    if a.len() > 0 {
        lemma_count_of_member(a, 0);
        lemma_count_contains(b, a[0]);
        lemma_winner_exists(a);
        let w = choose|w: Vote| is_winner(a, w);
        assert forall|k: int| 0 <= k < b.len() implies #[trigger] ranks_over(
            count(b, w),
            w,
            count(b, b[k]),
            b[k],
        ) by {
            lemma_count_of_member(b, k);
            lemma_count_contains(a, b[k]);
            let j = choose|j: int| 0 <= j < a.len() && a[j] == b[k];
            assert(ranks_over(count(a, w), w, count(a, a[j]), a[j]));
        }
        lemma_winner_unique(b, w);
        lemma_winner_unique(a, w);
    } else if b.len() > 0 {
        lemma_count_of_member(b, 0);
        lemma_count_contains(a, b[0]);
    }
}

} // verus!
