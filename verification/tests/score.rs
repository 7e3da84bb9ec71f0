use weiawaga::evaluation::score::Score;

#[test]
fn test_score_mgeg() {
    assert_eq!(Score::new(1, 1).mg(), 1);
    assert_eq!(Score::new(1, 1).eg(), 1);
    assert_eq!(Score::new(1, -1).mg(), 1);
    assert_eq!(Score::new(1, -1).eg(), -1);
    assert_eq!(Score::new(-1, 1).mg(), -1);
    assert_eq!(Score::new(-1, 1).eg(), 1);
    assert_eq!(Score::new(-1, -1).mg(), -1);
    assert_eq!(Score::new(-1, -1).eg(), -1);
}

#[test]
fn test_score_calculus() {
    assert_eq!(Score::new(1, 2) + Score::new(3, 4), Score::new(4, 6));
    assert_eq!(Score::new(-1, -2) + Score::new(3, 4), Score::new(2, 2));
    assert_eq!(Score::new(3, 4) - Score::new(1, 2), Score::new(2, 2));
    assert_eq!(Score::new(3, 0) - Score::new(1, 2), Score::new(2, -2));
}

#[test]
fn score_eval_tapers_between_phases() {
    let s = Score::new(100, -50);
    assert_eq!(s.eval(0), 100);
    assert_eq!(s.eval(Score::TOTAL_PHASE), -50);
    assert_eq!(s.eval(192), 25);
    assert_eq!(Score::new(-1, 0).eval(1), 0);
    assert_eq!(s.scores(), (100, -50));
    assert_eq!(-s, Score::new(-100, 50));
    assert_eq!(s * 2, Score::new(200, -100));
}

#[test]
fn score_checkmate_values() {
    assert!(Score::is_checkmate(16000));
    assert!(Score::is_checkmate(-31999));
    assert!(!Score::is_checkmate(15999));
    assert!(!Score::is_checkmate(0));
}
