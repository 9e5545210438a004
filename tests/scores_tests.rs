use tetris_core::scores::{clip_name, rank, Score, ScoreStore, MAX_SCORES, TOP_SCORES};

fn rec(name: &str, score: u32) -> Score {
    Score { name: name.to_string(), score, level: 1, lines: 0, timestamp: 0 }
}

#[test]
fn rank_orders_descending_and_keeps_ties_in_order() {
    let ranked = rank(vec![rec("a", 10), rec("b", 30), rec("c", 10), rec("d", 20), rec("e", 30)]);
    let names: Vec<&str> = ranked.iter().map(|s| s.name.as_str()).collect();
    assert_eq!(names, vec!["b", "e", "d", "a", "c"]);
}

#[test]
fn add_score_sorts_and_caps() {
    let mut store = ScoreStore::new();
    for i in 0..(MAX_SCORES as u32 + 5) {
        store.add_score(rec("p", i));
    }
    assert_eq!(store.scores.len(), MAX_SCORES);
    assert_eq!(store.scores[0].score, MAX_SCORES as u32 + 4);
    assert_eq!(store.scores[MAX_SCORES - 1].score, 5);
    store.add_score(rec("late", 5));
    assert_eq!(store.scores[MAX_SCORES - 1].name, "p");
}

#[test]
fn top_and_qualifies() {
    let mut store = ScoreStore::new();
    for i in 0..5u32 {
        store.add_score(rec("p", i * 10));
    }
    assert_eq!(store.get_top().len(), 5);
    assert!(store.qualifies(0));
    for i in 5..12u32 {
        store.add_score(rec("p", i * 10));
    }
    let top = store.get_top();
    assert_eq!(top.len(), TOP_SCORES);
    assert_eq!(top[0].score, 110);
    assert_eq!(top[9].score, 20);
    assert!(!store.qualifies(20));
    assert!(store.qualifies(21));
}

#[test]
fn names_are_clipped_to_twenty_characters() {
    assert_eq!(clip_name("ann"), "ann");
    assert_eq!(clip_name("abcdefghijklmnopqrstuvwxyz"), "abcdefghijklmnopqrst");
    assert_eq!(clip_name("ééééééééééééééééééééééé"), "éééééééééééééééééééé");
    assert_eq!(clip_name(""), "");
}
