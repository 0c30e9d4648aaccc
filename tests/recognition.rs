use audio_fingerprint::fingerprint::{Fingerprint, HashRecord};
use audio_fingerprint::store::{MemoryStore, Repository, StoreError};
use audio_fingerprint::votes::{best_alignment, Tally, VoteTable};

fn fp(hash: &str, time: usize) -> Fingerprint<String> {
    Fingerprint { hash: hash.to_string(), time }
}

fn fps(pairs: &[(&str, usize)]) -> Vec<Fingerprint<String>> {
    pairs.iter().map(|(h, t)| fp(h, *t)).collect()
}

fn rec(hash: &str, time: usize, song: usize) -> HashRecord<String> {
    HashRecord { hash: hash.to_string(), time, song }
}

#[test]
fn shifted_query_votes_for_one_delta() {
    let mut store = MemoryStore::new();
    let id = store.index("Test Song", fps(&[("100", 0), ("200", 1), ("300", 2)])).unwrap();
    assert_eq!(id, 1);
    let query = fps(&[("100", 5), ("200", 6), ("300", 7)]);
    assert_eq!(store.find(&query).unwrap(), Some("Test Song".to_string()));

    let recs = vec![rec("100", 0, 1), rec("200", 1, 1), rec("300", 2, 1)];
    let best = best_alignment(&query, &recs).unwrap();
    assert_eq!(best, Tally { song: 1, delta: -5, votes: 3 });
}

#[test]
fn integer_hashes_are_recognized() {
    let mut store = MemoryStore::<u64>::new();
    let song = vec![
        Fingerprint { hash: 100, time: 0 },
        Fingerprint { hash: 200, time: 1 },
        Fingerprint { hash: 300, time: 2 },
    ];
    store.index("Test Song", song).unwrap();
    store.index("Other", vec![Fingerprint { hash: 400, time: 0 }]).unwrap();
    let query = vec![
        Fingerprint { hash: 100u64, time: 5 },
        Fingerprint { hash: 200, time: 6 },
        Fingerprint { hash: 300, time: 7 },
    ];
    assert_eq!(store.find(&query).unwrap(), Some("Test Song".to_string()));
    let recs = vec![
        HashRecord { hash: 100u64, time: 0, song: 1 },
        HashRecord { hash: 200, time: 1, song: 1 },
        HashRecord { hash: 300, time: 2, song: 1 },
    ];
    assert_eq!(best_alignment(&query, &recs), Some(Tally { song: 1, delta: -5, votes: 3 }));
    assert_eq!(store.find(&vec![Fingerprint { hash: 500, time: 0 }]).unwrap(), None);
}

#[test]
fn round_trip_same_fingerprints() {
    let mut store = MemoryStore::new();
    store.index("Other", fps(&[("a", 0), ("b", 3)])).unwrap();
    let song: Vec<Fingerprint<String>> = (0..20).map(|i| fp(&format!("h{}", i), i * 2)).collect();
    store.index("Wanted", song.clone()).unwrap();
    assert_eq!(store.find(&song).unwrap(), Some("Wanted".to_string()));
}

#[test]
fn round_trip_shifted_sub_range() {
    let mut store = MemoryStore::new();
    let song: Vec<Fingerprint<String>> = (0..20).map(|i| fp(&format!("h{}", i), 100 + i * 3)).collect();
    store.index("Wanted", song.clone()).unwrap();
    let clip: Vec<Fingerprint<String>> = song[5..12].iter().map(|f| fp(&f.hash, f.time - 90)).collect();
    assert_eq!(store.find(&clip).unwrap(), Some("Wanted".to_string()));
    let recs: Vec<HashRecord<String>> = song.iter().map(|f| rec(&f.hash, f.time, 1)).collect();
    assert_eq!(best_alignment(&clip, &recs), Some(Tally { song: 1, delta: 90, votes: 7 }));
}

#[test]
fn disjoint_hashes_do_not_match() {
    let mut store = MemoryStore::new();
    let a: Vec<Fingerprint<String>> = (1..=10).map(|i| fp(&format!("h{}", i), i)).collect();
    store.index("A", a).unwrap();
    let q: Vec<Fingerprint<String>> = (11..=20).map(|i| fp(&format!("h{}", i), i)).collect();
    assert_eq!(store.find(&q).unwrap(), None);
}

#[test]
fn noise_does_not_outvote_aligned_hashes() {
    let mut store = MemoryStore::new();
    let song: Vec<Fingerprint<String>> = (0..6).map(|i| fp(&format!("s{}", i), 10 + i)).collect();
    store.index("Genuine", song.clone()).unwrap();
    let noise: Vec<Fingerprint<String>> = (0..6).map(|i| fp(&format!("n{}", i), 50 + 7 * i)).collect();
    store.index("Noise", noise).unwrap();
    let mut q: Vec<Fingerprint<String>> = Vec::new();
    for i in 0..6 {
        q.push(fp(&format!("s{}", i), 3 + i));
        q.push(fp(&format!("n{}", i), 11 * i + 1));
    }
    assert_eq!(store.find(&q).unwrap(), Some("Genuine".to_string()));
}

#[test]
fn tie_prefers_smaller_delta() {
    let mut store = MemoryStore::new();
    store.index("Later", fps(&[("x", 20), ("y", 21)])).unwrap();
    store.index("Earlier", fps(&[("p", 12), ("q", 13)])).unwrap();
    let q = fps(&[("x", 0), ("y", 1), ("p", 0), ("q", 1)]);
    for _ in 0..5 {
        assert_eq!(store.find(&q).unwrap(), Some("Earlier".to_string()));
    }
}

#[test]
fn tie_on_delta_prefers_smaller_identity() {
    let recs = vec![rec("x", 4, 2), rec("x", 4, 1)];
    let q = fps(&[("x", 1)]);
    assert_eq!(best_alignment(&q, &recs), Some(Tally { song: 1, delta: 3, votes: 1 }));
}

#[test]
fn empty_query_finds_nothing() {
    let mut store = MemoryStore::<String>::new();
    assert_eq!(store.find(&Vec::new()).unwrap(), None);
    store.index("Song", fps(&[("a", 1)])).unwrap();
    assert_eq!(store.find(&Vec::new()).unwrap(), None);
}

#[test]
fn empty_store_finds_nothing() {
    let store = MemoryStore::new();
    assert_eq!(store.find(&fps(&[("a", 1)])).unwrap(), None);
}

#[test]
fn failed_index_leaves_no_rows() {
    let mut store = MemoryStore::with_row_limit(4);
    store.index("First", fps(&[("a", 0), ("b", 1)])).unwrap();
    let r = store.index("Second", fps(&[("c", 0), ("d", 1), ("e", 2)]));
    assert!(matches!(r, Err(StoreError::TransactionAborted(_))));
    assert_eq!(store.song_count(), 1);
    assert_eq!(store.record_count(), 2);
    assert_eq!(store.records_of(2), 0);
    assert_eq!(store.song_name(2), None);
    assert_eq!(store.find(&fps(&[("c", 0), ("d", 1)])).unwrap(), None);
    let id = store.index("Third", fps(&[("c", 0), ("d", 1)])).unwrap();
    assert_eq!(id, 2);
    assert_eq!(store.records_of(2), 2);
}

#[test]
fn empty_song_is_stored_but_never_found() {
    let mut store = MemoryStore::new();
    let id = store.index("Silent", Vec::new()).unwrap();
    assert_eq!(id, 1);
    assert_eq!(store.song_name(1), Some("Silent".to_string()));
    assert_eq!(store.records_of(1), 0);
    assert_eq!(store.find(&fps(&[("a", 0)])).unwrap(), None);
}

#[test]
fn reindex_makes_two_songs() {
    let mut store = MemoryStore::new();
    let f = fps(&[("a", 0), ("b", 1), ("a", 0)]);
    let first = store.index("Same", f.clone()).unwrap();
    let second = store.index("Same", f.clone()).unwrap();
    assert_ne!(first, second);
    assert_eq!(store.song_name(first), Some("Same".to_string()));
    assert_eq!(store.song_name(second), Some("Same".to_string()));
    assert_eq!(store.records_of(first), 3);
    assert_eq!(store.records_of(second), 3);
    assert_eq!(store.record_count(), 6);
    assert_eq!(store.find(&f).unwrap(), Some("Same".to_string()));
}

#[test]
fn delete_is_unsupported() {
    let mut store = MemoryStore::new();
    store.index("Song", fps(&[("a", 1)])).unwrap();
    assert_eq!(store.delete("Song"), Err(StoreError::Unsupported));
    assert_eq!(store.song_count(), 1);
    assert_eq!(store.record_count(), 1);
}

#[test]
fn vote_table_tracks_leader() {
    let mut t = VoteTable::new();
    assert_eq!(t.leader(), None);
    t.cast_vote(2, 7);
    assert_eq!(t.leader(), Some(Tally { song: 2, delta: 7, votes: 1 }));
    t.cast_vote(1, 9);
    assert_eq!(t.leader(), Some(Tally { song: 2, delta: 7, votes: 1 }));
    t.cast_vote(1, 9);
    assert_eq!(t.leader(), Some(Tally { song: 1, delta: 9, votes: 2 }));
    t.cast_vote(3, -4);
    t.cast_vote(3, -4);
    assert_eq!(t.leader(), Some(Tally { song: 3, delta: -4, votes: 2 }));
}

#[test]
fn add_matches_skips_other_hashes() {
    let mut t = VoteTable::new();
    let recs = vec![rec("a", 10, 1), rec("b", 10, 1), rec("a", 3, 2)];
    t.add_matches(&fp("a", 5), &recs);
    assert_eq!(t.leader(), Some(Tally { song: 2, delta: -2, votes: 1 }));
    t.add_matches(&fp("a", 5), &recs);
    assert_eq!(t.leader(), Some(Tally { song: 2, delta: -2, votes: 2 }));
}

#[test]
fn repeated_query_hash_votes_per_fingerprint() {
    let recs = vec![rec("a", 10, 1)];
    let q = fps(&[("a", 4), ("a", 4), ("a", 6)]);
    assert_eq!(best_alignment(&q, &recs), Some(Tally { song: 1, delta: 6, votes: 2 }));
}

#[test]
fn vote_order_does_not_change_winner() {
    let votes = [(1usize, 4i128), (2, 3), (1, 4), (2, 3), (3, 9)];
    let mut forward = VoteTable::new();
    for (s, d) in votes.iter() {
        forward.cast_vote(*s, *d);
    }
    let mut backward = VoteTable::new();
    for (s, d) in votes.iter().rev() {
        backward.cast_vote(*s, *d);
    }
    assert_eq!(forward.leader(), Some(Tally { song: 2, delta: 3, votes: 2 }));
    assert_eq!(backward.leader(), forward.leader());
}

#[test]
fn query_order_does_not_change_result() {
    let mut store = MemoryStore::new();
    store.index("One", fps(&[("a", 10), ("b", 11), ("c", 30)])).unwrap();
    store.index("Two", fps(&[("a", 3), ("b", 4), ("c", 5)])).unwrap();
    let q = fps(&[("a", 0), ("b", 1), ("c", 2)]);
    let mut reversed = q.clone();
    reversed.reverse();
    assert_eq!(store.find(&q).unwrap(), Some("Two".to_string()));
    assert_eq!(store.find(&reversed).unwrap(), Some("Two".to_string()));
}
