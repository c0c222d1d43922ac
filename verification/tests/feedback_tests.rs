use bts_map::error::MapError;
use bts_map::feedback::{FeedbackDb, FeedbackError};

#[test]
fn empty_database_is_neutral() {
    let db = FeedbackDb::default();
    assert!(db.files.is_empty());
    assert_eq!(db.factor_ratio("src/a.rs"), (1, 1));
}

#[test]
fn record_counts_good_and_bad() {
    let mut db = FeedbackDb::new();
    db.record("src/a.rs", true);
    db.record("src/a.rs", true);
    db.record("src/b.rs", false);
    db.record("src/a.rs", false);
    assert_eq!(db.files.len(), 2);
    assert_eq!(db.files[0].0, "src/a.rs");
    assert_eq!((db.files[0].1.good, db.files[0].1.bad), (2, 1));
    assert_eq!(db.files[1].0, "src/b.rs");
    assert_eq!((db.files[1].1.good, db.files[1].1.bad), (0, 1));
}

#[test]
fn factor_follows_the_formula() {
    let mut db = FeedbackDb::new();
    db.record("good.rs", true);
    db.record("good.rs", true);
    db.record("bad.rs", false);
    db.record("bad.rs", false);
    db.record("even.rs", true);
    db.record("even.rs", false);
    // 1 + 0.3 * (2 - 0) / 3 = 1.2 = 36/30
    assert_eq!(db.factor_ratio("good.rs"), (36, 30));
    // 1 + 0.3 * (0 - 2) / 3 = 0.8 = 24/30
    assert_eq!(db.factor_ratio("bad.rs"), (24, 30));
    // 1 + 0.3 * 0 / 3 = 1
    assert_eq!(db.factor_ratio("even.rs"), (30, 30));
    assert_eq!(db.factor_ratio("unknown.rs"), (1, 1));
}

#[test]
fn feedback_adjusts_direction() {
    let mut db = FeedbackDb::default();
    for _ in 0..10 {
        db.record("top.rs", false);
        db.record("other.rs", true);
    }
    let (n, d) = db.factor_ratio("top.rs");
    assert!(n < d);
    let (n, d) = db.factor_ratio("other.rs");
    assert!(n > d);
    // 1 + 0.3 * 10 / 11
    assert_eq!(db.factor_ratio("other.rs"), (140, 110));
}

#[test]
fn error_messages() {
    assert_eq!(FeedbackError::Io("disk".to_string()).message(), "feedback I/O error: disk");
    assert_eq!(FeedbackError::Parse("eof".to_string()).message(), "feedback parse error: eof");
    assert_eq!(MapError::QueryCompile("bad".to_string()).message(), "Query compile failed: bad");
    assert_eq!(MapError::ParseFailed("a.rs".to_string()).message(), "Parse failed for file: a.rs");
}
