use vstd::prelude::*;

use crate::fingerprint::{
    lemma_count_contains, matches_of, recognized_song, vote_of, votes_of, Fingerprint, HashRecord,
    LandmarkHash,
};
use crate::votes::best_alignment;

verus! {

/// Why a store operation failed.
#[derive(Debug, Clone, PartialEq, Eq)]
pub enum StoreError {
    /// The store could not be reached; the caller may retry.
    ConnectionFailed(String),
    /// An indexing transaction failed and was rolled back in full.
    TransactionAborted(String),
    /// The operation is not implemented by this store.
    Unsupported,
    /// A recognition would cast more votes than a counter can hold.
    QueryTooLarge,
}

/// The rows that indexing `fps` under the song identity `id` adds, in order.
pub open spec fn records_for<H: LandmarkHash>(
    fps: Seq<Fingerprint<H>>,
    id: usize,
) -> Seq<HashRecord<H>> {
    fps.map_values(|f: Fingerprint<H>| (HashRecord { hash: f.hash, time: f.time, song: id }))
}

/// The name of the recognized song, given the song names by identity (the song with
/// identity `i` has name `names[i - 1]`) and the stored records.
pub open spec fn recognized_name<H: LandmarkHash>(
    names: Seq<Seq<char>>,
    recs: Seq<HashRecord<H>>,
    q: Seq<Fingerprint<H>>,
) -> Option<Seq<char>> {
    match recognized_song(q, recs) {
        Some(id) => Some(names[id - 1]),
        None => None,
    }
}

/// What an optional name holds.
pub open spec fn name_view(r: Option<String>) -> Option<Seq<char>> {
    match r {
        Some(s) => Some(s@),
        None => None,
    }
}

/// Every record belongs to a song that exists: identities run from 1 to `n`.
pub open spec fn records_owned<H: LandmarkHash>(recs: Seq<HashRecord<H>>, n: nat) -> bool {
    forall|i: int| 0 <= i < recs.len() ==> 1 <= #[trigger] recs[i].song <= n
}

/// Every vote is for a song whose records are stored.
pub proof fn lemma_matches_owned<H: LandmarkHash>(
    f: Fingerprint<H>,
    recs: Seq<HashRecord<H>>,
    n: nat,
)
    requires
        records_owned(recs, n),
    ensures
        forall|k: int|
            0 <= k < matches_of(f, recs).len() ==> 1 <= #[trigger] matches_of(f, recs)[k].0 <= n,
    decreases recs.len(),
{
    if recs.len() > 0 {
        let init = recs.drop_last();
        assert forall|i: int| 0 <= i < init.len() implies 1 <= #[trigger] init[i].song <= n by {
            assert(init[i] == recs[i]);
        }
        lemma_matches_owned(f, init, n);
        assert(1 <= recs[recs.len() - 1].song <= n);
        let rest = matches_of(f, init);
        let all = matches_of(f, recs);
        assert forall|k: int| 0 <= k < all.len() implies 1 <= #[trigger] all[k].0 <= n by {
            if k < rest.len() {
                assert(all[k] == rest[k]);
            } else {
                assert(all[k] == vote_of(f, recs[recs.len() - 1]));
            }
        }
    }
}

/// Every vote of a query is for a song whose records are stored.
pub proof fn lemma_votes_owned<H: LandmarkHash>(
    q: Seq<Fingerprint<H>>,
    recs: Seq<HashRecord<H>>,
    n: nat,
)
    requires
        records_owned(recs, n),
    ensures
        forall|k: int|
            0 <= k < votes_of(q, recs).len() ==> 1 <= #[trigger] votes_of(q, recs)[k].0 <= n,
    decreases q.len(),
{
    if q.len() > 0 {
        lemma_votes_owned(q.drop_last(), recs, n);
        lemma_matches_owned(q.last(), recs, n);
        let a = votes_of(q.drop_last(), recs);
        let b = matches_of(q.last(), recs);
        assert forall|k: int| 0 <= k < (a + b).len() implies 1 <= #[trigger] (a + b)[k].0 <= n by {
            if k >= a.len() {
                assert((a + b)[k] == b[k - a.len()]);
            }
        }
    }
}

/// A fingerprint store: a songs table and a hashes table, with the two operations
/// on them and the unsupported third.
pub trait Repository<H: LandmarkHash> {
    /// The song names; the song with identity `i` is named `names()[i - 1]`.
    spec fn names(&self) -> Seq<Seq<char>>;

    /// The rows of the hashes table.
    spec fn records(&self) -> Seq<HashRecord<H>>;

    /// Creates a song named `song` and stores every fingerprint under its new
    /// identity, which it returns. All or nothing: on failure neither the song nor
    /// any of its rows is stored.
    fn index(&mut self, song: &str, fingerprints: Vec<Fingerprint<H>>) -> (r: Result<
        usize,
        StoreError,
    >)
        ensures
            r matches Ok(id) ==> {
                &&& id == old(self).names().len() + 1
                &&& final(self).names() == old(self).names().push(song@)
                &&& final(self).records() == old(self).records() + records_for(fingerprints@, id)
            },
            r is Err ==> {
                &&& final(self).names() == old(self).names()
                &&& final(self).records() == old(self).records()
            },
    ;

    /// Recognizes a clip from its fingerprints by time-aligned voting; `None` when
    /// no stored hash collides. An empty query is answered with `None`.
    fn find(&self, fingerprints: &Vec<Fingerprint<H>>) -> (r: Result<Option<String>, StoreError>)
        ensures
            r matches Ok(name) ==> name_view(name) == recognized_name(
                self.names(),
                self.records(),
                fingerprints@,
            ),
            fingerprints@.len() == 0 ==> r == Ok::<Option<String>, StoreError>(None),
    ;

    /// Deleting songs is not supported: the store is left alone and the call says so.
    fn delete(&mut self, song: &str) -> (r: Result<usize, StoreError>)
        ensures
            r == Err::<usize, StoreError>(StoreError::Unsupported),
            final(self).names() == old(self).names(),
            final(self).records() == old(self).records(),
    ;
}

/// An in-memory fingerprint store: a songs table and a hashes table.
///
/// The song with identity `i` is the `i`-th song created (identities start at 1).
/// The hashes table holds at most `row_limit` rows; an insert past it fails.
pub struct MemoryStore<H: LandmarkHash> {
    songs: Vec<String>,
    hashes: Vec<HashRecord<H>>,
    row_limit: usize,
}

impl<H: LandmarkHash> MemoryStore<H> {
    #[verifier::type_invariant]
    spec fn inv(self) -> bool {
        records_owned(self.hashes@, self.songs@.len())
    }

    /// The largest number of rows the hashes table takes.
    pub closed spec fn limit(&self) -> nat {
        self.row_limit as nat
    }

    /// An empty store without a row limit beyond what memory holds.
    pub fn new() -> (s: MemoryStore<H>)
        ensures
            s.names().len() == 0,
            s.records().len() == 0,
            s.limit() == usize::MAX,
    {
        let s = MemoryStore { songs: Vec::new(), hashes: Vec::new(), row_limit: usize::MAX };
        assert(s.names() =~= Seq::<Seq<char>>::empty());
        s
    }

    /// An empty store whose hashes table takes at most `row_limit` rows.
    pub fn with_row_limit(row_limit: usize) -> (s: MemoryStore<H>)
        ensures
            s.names().len() == 0,
            s.records().len() == 0,
            s.limit() == row_limit,
    {
        let s = MemoryStore { songs: Vec::new(), hashes: Vec::new(), row_limit };
        assert(s.names() =~= Seq::<Seq<char>>::empty());
        s
    }

    /// The number of songs.
    pub fn song_count(&self) -> (n: usize)
        ensures
            n == self.names().len(),
    {
        self.songs.len()
    }

    /// The number of rows in the hashes table.
    pub fn record_count(&self) -> (n: usize)
        ensures
            n == self.records().len(),
    {
        self.hashes.len()
    }

    /// The name of the song with identity `id`, if it exists.
    pub fn song_name(&self, id: usize) -> (r: Option<String>)
        ensures
            name_view(r) == (if 1 <= id <= self.names().len() {
                Some(self.names()[id - 1])
            } else {
                None
            }),
    {
        if 1 <= id && id <= self.songs.len() {
            Some(self.songs[id - 1].clone())
        } else {
            None
        }
    }

    /// The number of hash rows that belong to the song `id`.
    pub fn records_of(&self, id: usize) -> (n: usize)
        ensures
            n == self.records().filter(|r: HashRecord<H>| r.song == id).len(),
    {
        let mut n: usize = 0;
        let mut i: usize = 0;
        while i < self.hashes.len()
            invariant
                i <= self.hashes@.len(),
                n == self.hashes@.take(i as int).filter(|r: HashRecord<H>| r.song == id).len(),
                n <= i,
            decreases self.hashes@.len() - i,
        {
            proof {
                let before = self.hashes@.take(i as int);
                let after = self.hashes@.take(i + 1);
                assert(after.drop_last() =~= before);
                reveal(Seq::filter);
            }
            if self.hashes[i].song == id {
                n = n + 1;
            }
            i = i + 1;
        }
        assert(self.hashes@.take(self.hashes@.len() as int) =~= self.hashes@);
        n
    }
}

impl<H: LandmarkHash> Repository<H> for MemoryStore<H> {
    closed spec fn names(&self) -> Seq<Seq<char>> {
        self.songs@.map_values(|s: String| s@)
    }

    closed spec fn records(&self) -> Seq<HashRecord<H>> {
        self.hashes@
    }

    /// Runs one transaction: inserts the song row, then one hash row per fingerprint.
    /// When an insert fails (the row limit is reached, or no identity is left), every
    /// row of the transaction is rolled back and the store is as it was.
    fn index(&mut self, song: &str, fingerprints: Vec<Fingerprint<H>>) -> (r: Result<
        usize,
        StoreError,
    >)
        ensures
            r.is_ok() <==> old(self).names().len() < usize::MAX && old(self).records().len()
                + fingerprints@.len() <= old(self).limit(),
            final(self).limit() == old(self).limit(),
            r matches Err(e) ==> e is TransactionAborted,
    {
        proof {
            use_type_invariant(&*self);
        }
        if self.songs.len() == usize::MAX {
            return Err(StoreError::TransactionAborted("no song identity is left".to_owned()));
        }
        let ghost names0 = self.names();
        let ghost recs0 = self.hashes@;
        let mut hashes: Vec<HashRecord<H>> = Vec::new();
        std::mem::swap(&mut self.hashes, &mut hashes);
        let mut songs: Vec<String> = Vec::new();
        std::mem::swap(&mut self.songs, &mut songs);
        let mark = hashes.len();
        let id = songs.len() + 1;
        songs.push(song.to_owned());
        let mut i: usize = 0;
        while i < fingerprints.len()
            invariant
                self.songs@.len() == 0,
                self.hashes@.len() == 0,
                self.row_limit == old(self).row_limit,
                songs@ == old(self).songs@.push(songs@.last()),
                songs@.last()@ == song@,
                id == songs@.len(),
                mark == recs0.len(),
                i <= fingerprints@.len(),
                hashes@ == recs0 + records_for(fingerprints@.take(i as int), id),
                recs0 == old(self).hashes@,
                records_owned(recs0, (id - 1) as nat),
                hashes@.len() <= self.row_limit || i == 0,
            decreases fingerprints@.len() - i,
        {
            if hashes.len() >= self.row_limit {
                hashes.truncate(mark);
                songs.truncate(id - 1);
                assert(songs@ =~= old(self).songs@);
                assert(hashes@ =~= recs0);
                std::mem::swap(&mut self.songs, &mut songs);
                std::mem::swap(&mut self.hashes, &mut hashes);
                return Err(StoreError::TransactionAborted("the hashes table is full".to_owned()));
            }
            let f = &fingerprints[i];
            hashes.push(HashRecord { hash: f.hash.copy_hash(), time: f.time, song: id });
            assert(fingerprints@.take(i + 1) =~= fingerprints@.take(i as int).push(
                fingerprints@[i as int],
            ));
            assert(records_for(fingerprints@.take(i + 1), id) =~= records_for(
                fingerprints@.take(i as int),
                id,
            ).push(
                HashRecord { hash: f.hash, time: f.time, song: id },
            ));
            i = i + 1;
        }
        assert(fingerprints@.take(fingerprints@.len() as int) =~= fingerprints@);
        if hashes.len() > self.row_limit {
            hashes.truncate(mark);
            songs.truncate(id - 1);
            assert(songs@ =~= old(self).songs@);
            assert(hashes@ =~= recs0);
            std::mem::swap(&mut self.songs, &mut songs);
            std::mem::swap(&mut self.hashes, &mut hashes);
            return Err(StoreError::TransactionAborted("the hashes table is full".to_owned()));
        }
        assert(records_owned(hashes@, songs@.len()));
        std::mem::swap(&mut self.songs, &mut songs);
        std::mem::swap(&mut self.hashes, &mut hashes);
        assert(self.names() =~= names0.push(song@));
        Ok(id)
    }

    /// Recognizes a clip by time-aligned histogram voting over the stored records.
    /// An empty query is answered without reading any row.
    fn find(&self, fingerprints: &Vec<Fingerprint<H>>) -> (r: Result<Option<String>, StoreError>)
        ensures
            r is Err <==> fingerprints@.len() * self.records().len() > usize::MAX,
            r matches Err(e) ==> e is QueryTooLarge,
    {
        proof {
            use_type_invariant(self);
        }
        if fingerprints.len() == 0 {
            proof {
                assert(votes_of(fingerprints@, self.hashes@).len() == 0);
            }
            return Ok(None);
        }
        match fingerprints.len().checked_mul(self.hashes.len()) {
            None => Err(StoreError::QueryTooLarge),
            Some(_) => {
                match best_alignment(fingerprints, &self.hashes) {
                    None => Ok(None),
                    Some(t) => {
                        proof {
                            let votes = votes_of(fingerprints@, self.hashes@);
                            lemma_count_contains(votes, t.key());
                            lemma_votes_owned(fingerprints@, self.hashes@, self.songs@.len());
                        }
                        Ok(Some(self.songs[t.song - 1].clone()))
                    },
                }
            },
        }
    }

    /// Deleting is not supported: the store is left alone and the call says so.
    fn delete(&mut self, song: &str) -> (r: Result<usize, StoreError>) {
        Err(StoreError::Unsupported)
    }
}

} // verus!
