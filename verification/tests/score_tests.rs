use beetle::score::{BestEntry, ClearType, ScoreStore};

/// What the store keeps beside the EX score and lamp, as a score record does.
#[derive(Debug, Clone, PartialEq)]
struct Detail {
    max_combo: u32,
    accuracy_rate: f64,
    pgreat_count: u32,
}

fn detail(max_combo: u32, accuracy_rate: f64, pgreat_count: u32) -> Detail {
    Detail { max_combo, accuracy_rate, pgreat_count }
}

#[test]
fn test_score_store_update() {
    let mut store: ScoreStore<Detail> = ScoreStore::new();
    assert!(store.update(1, 100, ClearType::Clear, detail(50, 80.0, 50)));
    // Should not overwrite with lower score
    assert!(!store.update(1, 80, ClearType::Clear, detail(40, 70.0, 40)));
    assert!(store.update(1, 120, ClearType::FullCombo, detail(60, 90.0, 60)));
    assert_eq!(store.get(1).unwrap().ex_score, 120);
    assert_eq!(store.get(1).unwrap().record.max_combo, 60);
}

#[test]
fn better_lamp_alone_replaces_and_insert_overwrites() {
    let mut store: ScoreStore<Detail> = ScoreStore::new();
    assert!(store.update(7, 500, ClearType::Clear, detail(1, 1.0, 1)));
    assert!(store.update(7, 400, ClearType::Perfect, detail(2, 2.0, 2)));
    assert_eq!(store.get(7).unwrap().clear_type, ClearType::Perfect);
    assert!(!store.update(7, 400, ClearType::Perfect, detail(3, 3.0, 3)));
    store.insert(7, BestEntry { ex_score: 1, clear_type: ClearType::Failed, record: detail(0, 0.0, 0) });
    assert_eq!(store.get(7).unwrap().ex_score, 1);
    assert!(store.get(8).is_none());
    assert_eq!(store.len(), 1);
    assert_eq!(store.entries().len(), 1);
}
