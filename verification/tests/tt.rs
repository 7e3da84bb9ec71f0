use weiawaga::board::Board;
use weiawaga::move_list::MoveList;
use weiawaga::search::Bound;
use weiawaga::tt::{TTEntry, TT};

fn start() -> Board {
    Board::new()
}

#[test]
fn tt_entry_packs_fields() {
    let board = start();
    let moves = MoveList::from::<false>(&board);
    let m = *moves.get(0).unwrap();
    let e = TTEntry::new(board.hash(), -1234, Some(m), 7, Bound::Lower, 5);
    assert_eq!(e.value(), -1234);
    assert_eq!(e.depth(), 7);
    assert_eq!(e.bound(), Bound::Lower);
    assert_eq!(e.age(), 5);
    assert_eq!(e.key(), board.hash() >> 48);
    assert_eq!(e.best_move(), Some(m));
    let e2 = e.with_value(99);
    assert_eq!(e2.value(), 99);
    assert_eq!(e2.depth(), 7);
    assert_eq!(e2.best_move(), Some(m));
}

#[test]
fn tt_entry_age_keeps_six_bits() {
    let e = TTEntry::new(0, 0, None, -3, Bound::Upper, 70);
    assert_eq!(e.age(), 6);
    assert_eq!(e.depth(), -3);
    assert_eq!(e.best_move(), None);
}

#[test]
fn tt_get_after_insert() {
    let board = start();
    let mut tt = TT::new(1);
    assert!(tt.get(&board, 0).is_none());
    let moves = MoveList::from::<false>(&board);
    let m = *moves.get(3).unwrap();
    tt.insert(&board, 5, 42, Some(m), Bound::Exact, 0);
    let e = tt.get(&board, 0).expect("entry stored");
    assert_eq!(e.depth(), 5);
    assert_eq!(e.value(), 42);
    assert_eq!(e.bound(), Bound::Exact);
    assert_eq!(e.best_move(), Some(m));
}

#[test]
fn tt_mate_values_are_relative_to_the_position() {
    let board = start();
    let mut tt = TT::new(1);
    // A mate found 3 plies from the root is stored 3 further from zero.
    tt.insert(&board, 4, 31000, None, Bound::Exact, 3);
    let e = tt.get(&board, 3).unwrap();
    assert_eq!(e.value(), 31000);
    let e = tt.get(&board, 5).unwrap();
    assert_eq!(e.value(), 30998);
    tt.insert(&board, 9, -31000, None, Bound::Exact, 2);
    let e = tt.get(&board, 0).unwrap();
    assert_eq!(e.value(), -31002);
}

#[test]
fn tt_shallow_entry_does_not_replace_deep_one() {
    let board = start();
    let mut tt = TT::new(1);
    tt.insert(&board, 10, 7, None, Bound::Lower, 0);
    tt.insert(&board, 7, 8, None, Bound::Lower, 0);
    assert_eq!(tt.get(&board, 0).unwrap().value(), 7);
    tt.insert(&board, 8, 9, None, Bound::Lower, 0);
    assert_eq!(tt.get(&board, 0).unwrap().value(), 9);
    tt.insert(&board, 1, 10, None, Bound::Exact, 0);
    assert_eq!(tt.get(&board, 0).unwrap().value(), 10);
}

#[test]
fn tt_clear_and_hashfull() {
    let board = start();
    let mut tt = TT::new(1);
    assert_eq!(tt.hashfull(), 0);
    tt.insert(&board, 3, 1, None, Bound::Exact, 0);
    tt.clear();
    assert!(tt.get(&board, 0).is_none());
    assert_eq!(tt.hashfull(), 0);
}

#[test]
fn tt_age_up_refreshes_found_entries() {
    let board = start();
    let mut tt = TT::new(1);
    tt.insert(&board, 3, 1, None, Bound::Lower, 0);
    tt.age_up();
    let e = tt.get(&board, 0).unwrap();
    assert_eq!(e.age(), 0);
    assert_eq!(tt.get(&board, 0).unwrap().age(), 1);
}

#[test]
fn tt_entry_of_earlier_search_is_replaced() {
    let board = start();
    let mut tt = TT::new(1);
    tt.insert(&board, 20, 1, None, Bound::Lower, 0);
    tt.age_up();
    tt.insert(&board, 1, 2, None, Bound::Lower, 0);
    assert_eq!(tt.get(&board, 0).unwrap().value(), 2);
}
