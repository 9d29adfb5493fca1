use checksmith::board::Square;
use checksmith::movegen::{Move, MoveFlag};
use checksmith::search::tt::{Bound, Cluster, Entry, TranspositionTable, CLUSTER_SIZE};

fn sq(name: &str) -> Square {
    Square::from_algebraic(name).unwrap()
}

#[test]
fn entry_is_compact() {
    assert_eq!(std::mem::size_of::<Entry>(), 16,
        "Entry must be exactly 16 bytes so a cluster fits in one cache line");
}

#[test]
fn cluster_is_cache_line_sized() {
    assert_eq!(std::mem::size_of::<Cluster>(), 64,
        "Cluster must be 64 bytes (one x86-64 cache line)");
}

#[test]
fn size_is_power_of_two() {
    let tt = TranspositionTable::new(1);
    let len = tt.clusters.len();
    assert!(len.is_power_of_two());
}

#[test]
fn store_then_probe_round_trips() {
    let mut tt = TranspositionTable::new(1);
    let mv = Move::new(sq("e2"), sq("e4"), MoveFlag::DoublePush);
    tt.store(0xDEAD_BEEF, 7, 123, Bound::Exact, Some(mv));

    let hit = tt.probe(0xDEAD_BEEF).expect("should hit");
    assert_eq!(hit.score, 123);
    assert_eq!(hit.depth, 7);
    assert_eq!(hit.bound, Bound::Exact);
    assert_eq!(hit.best_move(), Some(mv));

    // A different key in the same cluster must not falsely match.
    assert!(tt.probe(0x1234).is_none());
}

#[test]
fn cluster_holds_multiple_keys() {
    // Store CLUSTER_SIZE distinct keys that all hash to the same cluster.
    let mut tt = TranspositionTable::new(1);
    let num_clusters = tt.clusters.len() as u64;

    // Keys that share the same cluster: differ only in bits above the mask.
    let base: u64 = 0xABCD_1234;
    let keys: Vec<u64> = (0..CLUSTER_SIZE as u64)
        .map(|i| base.wrapping_add(i * num_clusters))
        .collect();

    for (i, &k) in keys.iter().enumerate() {
        tt.store(k, (i + 1) as u32, (i * 10) as i16, Bound::Exact, None);
    }
    for (i, &k) in keys.iter().enumerate() {
        let hit = tt.probe(k).expect("all cluster entries should be retrievable");
        assert_eq!(hit.score, (i * 10) as i16,
            "key {} should return score {}", k, i * 10);
    }
}

#[test]
fn clear_empties_the_table() {
    let mut tt = TranspositionTable::new(1);
    tt.store(42, 3, 10, Bound::Lower, None);
    assert!(tt.probe(42).is_some());
    tt.clear();
    assert!(tt.probe(42).is_none());
}
