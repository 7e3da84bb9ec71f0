use weiawaga::timer::{GoError, TimeControl};

#[test]
fn go_fixed_controls_parse() {
    assert_eq!("go".parse(), Ok(TimeControl::Infinite));
    assert_eq!("go ponder".parse(), Ok(TimeControl::Infinite));
    assert_eq!("go infinite".parse(), Ok(TimeControl::Infinite));
    assert_eq!("go infinite wtime 100".parse(), Ok(TimeControl::Infinite));
    assert_eq!("go depth 8".parse(), Ok(TimeControl::FixedDepth(8)));
    assert_eq!("go nodes 50000".parse(), Ok(TimeControl::FixedNodes(50000)));
    assert_eq!("go movetime 200".parse(), Ok(TimeControl::FixedDuration(200)));
}

#[test]
fn go_clocks_parse_in_any_order() {
    let control = Ok(TimeControl::Variable {
        wtime: 3000,
        btime: 2000,
        winc: Some(100),
        binc: Some(50),
        moves_to_go: Some(40),
    });
    assert_eq!("go wtime 3000 btime 2000 winc 100 binc 50 movestogo 40".parse(), control);
    assert_eq!("go movestogo 40 binc 50 wtime 3000 winc 100 btime 2000".parse(), control);
}

#[test]
fn go_negative_clock_clamps_to_zero() {
    assert_eq!(
        "go wtime -50 btime 1000".parse(),
        Ok(TimeControl::Variable { wtime: 0, btime: 1000, winc: None, binc: None, moves_to_go: None })
    );
}

#[test]
fn go_skips_unknown_tokens() {
    assert_eq!(
        "go wtime 1000 btime 1000 searchmoves e2e4 xyzzy".parse(),
        Ok(TimeControl::Variable { wtime: 1000, btime: 1000, winc: None, binc: None, moves_to_go: None })
    );
    assert_eq!("go frobnicate".parse(), Ok(TimeControl::Infinite));
    assert!("go movetime 200  ".parse::<TimeControl>().is_ok());
}

#[test]
fn go_rejects_conflicting_limits() {
    assert!("go depth 5 wtime 1000 btime 1000".parse::<TimeControl>().is_err());
    assert!("go depth 5 nodes 100".parse::<TimeControl>().is_err());
}

#[test]
fn go_rejects_orphan_clock_parameters() {
    assert!("go movestogo 30".parse::<TimeControl>().is_err());
    assert!("go winc 100".parse::<TimeControl>().is_err());
}

#[test]
fn go_rejects_unsupported_or_overflowing_values() {
    assert!("go mate 3".parse::<TimeControl>().is_err());
    assert!("go depth 200".parse::<TimeControl>().is_err());
}

#[test]
fn go_errors_are_told_apart() {
    assert_eq!(TimeControl::parse_go(b"gox"), Err(GoError::InvalidFormat));
    assert_eq!(TimeControl::parse_go(b" go"), Err(GoError::InvalidFormat));
    assert_eq!(TimeControl::parse_go(b"go mate 3 infinite"), Err(GoError::NotImplemented));
    assert_eq!(TimeControl::parse_go(b"go nodes 99999999999999999999"), Err(GoError::BadNodes));
    assert_eq!(TimeControl::parse_go(b"go depth 128"), Err(GoError::BadDepth));
    assert_eq!(TimeControl::parse_go(b"go depth 127"), Ok(TimeControl::FixedDepth(127)));
    assert_eq!(TimeControl::parse_go(b"go movetime 9223372036854775808"), Err(GoError::BadTime));
    assert_eq!(TimeControl::parse_go(b"go wtime 1 movestogo 4294967296"), Err(GoError::BadMovesToGo));
    assert_eq!(TimeControl::parse_go(b"go depth 3 movetime 10"), Err(GoError::SeveralLimits));
    assert_eq!(TimeControl::parse_go(b"go binc 5"), Err(GoError::OrphanClockParameter));
    assert_eq!(TimeControl::parse_go(b"go nodes 5 btime 7"), Err(GoError::BadCombination));
    assert_eq!("go depth 128".parse::<TimeControl>(), Err("Unable to parse depth."));
}

#[test]
fn go_reads_words_whole() {
    // A value must be a whole word: "8x" is skipped together with its key.
    assert_eq!(TimeControl::parse_go(b"go depth 8x"), Ok(TimeControl::Infinite));
    // A later value replaces an earlier one.
    assert_eq!(TimeControl::parse_go(b"go depth 3 depth 6"), Ok(TimeControl::FixedDepth(6)));
    // A key without a value is skipped and the next word read afresh.
    assert_eq!(TimeControl::parse_go(b"go wtime depth 4"), Ok(TimeControl::FixedDepth(4)));
    assert_eq!(
        TimeControl::parse_go(b"go\twtime -0 btime -9223372036854775808"),
        Ok(TimeControl::Variable { wtime: 0, btime: 0, winc: None, binc: None, moves_to_go: None })
    );
    assert_eq!(TimeControl::parse_go(b"go btime -9223372036854775809"), Err(GoError::BadTime));
}
