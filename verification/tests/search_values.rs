use weiawaga::moov::{Move, MoveFlags};
use weiawaga::search::engine::Search;
use weiawaga::square::SQ;

#[test]
fn node_value_scores_mate_stalemate_and_stops() {
    // No move in check: mated three plies from the root.
    assert_eq!(Search::node_value(false, -32000, true, None, true, 31997), -31997);
    // No move out of check: stalemate.
    assert_eq!(Search::node_value(false, -32000, true, None, false, 31997), 0);
    // A stopped search keeps what it found.
    assert_eq!(Search::node_value(true, 123, true, None, true, 31997), 123);
    // Moves were searched: the best of them.
    assert_eq!(Search::node_value(false, 55, false, None, true, 31997), 55);
    // A singular search with its move excluded keeps the best value too.
    let m = Move::new(SQ::E2, SQ::E4, MoveFlags::DoublePush);
    assert_eq!(Search::node_value(false, -32000, true, Some(m), true, 31997), -32000);
}
