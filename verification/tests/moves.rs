use chesshound::moves::AlgebraicMove;
use chesshound::moves::Move;
use chesshound::moves::SANError;

fn accepted(san_move: &str) -> bool {
    AlgebraicMove::try_from_algebraic(String::from(san_move)).is_ok()
}

fn message_for(invalid_san_move: &str) -> String {
    match AlgebraicMove::try_from_algebraic(String::from(invalid_san_move)) {
        Ok(_) => panic!("Invalid SAN accepted"),
        Err(san_error) => String::from(san_error.message()),
    }
}

#[test]
fn algebraic_move_should_accept_valid_san() {
    for san_move in [
        "e4", "Be3", "Ndf6", "Kxe2", "bxc4", "Raxd8", "e8=Q", "bxc8=R", "O-O", "O-O-O", "c4+",
        "Qe7#", "O-O-O#", "axb8=N+",
    ] {
        let _algebraic_move = AlgebraicMove::from_algebraic(String::from(san_move));
    }
}

#[test]
fn algebraic_move_should_reject_invalid_san() {
    for (invalid_san_move, expected_message) in [
        ("D4", "Invalid file: D"),
        ("Pd4", "Invalid piece: P"),
        ("Lxd4", "Invalid piece/file: L"),
        ("5", "Move is too short: 5"),
        ("#", "Move is too short: #"),
        ("Raaaxd8+", "Move is too long: Raaaxd8"),
        ("Rd9#", "Invalid rank: 9"),
        ("Kab2", "Invalid piece: K"),
        ("N9b7", "Invalid rank/file: 9"),
        ("d1=Z", "Invalid piece: Z"),
        ("b8=a", "Invalid piece: a"),
        ("d8/", "Invalid piece: d"),
        ("Nxa8=B", "Invalid file: N"),
        ("", "Empty string"),
    ] {
        assert_eq!(message_for(invalid_san_move), expected_message);
    }
}

#[test]
fn algebraic_move_should_convert_to_valid_san() {
    for san_move in ["e4", "bxc8#"] {
        let algebraic_move = AlgebraicMove::from_algebraic(String::from(san_move));

        assert_eq!(&algebraic_move.to_algebraic(), san_move);
    }
}

#[test]
fn every_accepted_move_comes_back_as_it_went_in() {
    for san_move in [
        "e4", "Be3", "Ndf6", "R1e2", "Kxe2", "bxc4", "Raxd8", "N5xf3", "e8=Q", "e8=K", "bxc8=R",
        "O-O", "O-O-O", "c4+", "Qe7#", "O-O+", "O-O-O#", "axb8=N+",
    ] {
        match AlgebraicMove::try_from_algebraic(String::from(san_move)) {
            Ok(algebraic_move) => assert_eq!(algebraic_move.to_algebraic(), san_move),
            Err(san_error) => panic!("{} was refused: {}", san_move, san_error.message()),
        }
    }
}

#[test]
fn empty_input_is_reported() {
    assert_eq!(message_for(""), "Empty string");
}

#[test]
fn too_short_names_the_whole_text() {
    assert_eq!(message_for("+"), "Move is too short: +");
    assert_eq!(message_for("e"), "Move is too short: e");
    assert_eq!(message_for("e+"), "Move is too short: e+");
    assert_eq!(message_for("4#"), "Move is too short: 4#");
}

#[test]
fn too_long_names_the_text_without_its_mark() {
    assert_eq!(message_for("Raaaxd8"), "Move is too long: Raaaxd8");
    assert_eq!(message_for("Raaaxd8#"), "Move is too long: Raaaxd8");
    assert_eq!(message_for("O-O-O-O"), "Move is too long: O-O-O-O");
}

#[test]
fn only_one_mark_is_taken_off() {
    assert_eq!(message_for("e4++"), "Invalid piece: e");
    assert_eq!(message_for("e4+#"), "Invalid piece: e");
    assert_eq!(message_for("Qe7#+"), "Invalid file: 7");
}

#[test]
fn invalid_file_is_reported() {
    assert_eq!(message_for("D4"), "Invalid file: D");
    assert_eq!(message_for("i4"), "Invalid file: i");
    assert_eq!(message_for("N`3"), "Invalid file: `");
    assert_eq!(message_for("Nxa8=B"), "Invalid file: N");
    assert_eq!(message_for("9xa8=B"), "Invalid file: 9");
}

#[test]
fn invalid_rank_is_reported() {
    assert_eq!(message_for("e0"), "Invalid rank: 0");
    assert_eq!(message_for("e9"), "Invalid rank: 9");
    assert_eq!(message_for("Rd9#"), "Invalid rank: 9");
    assert_eq!(message_for("bxc9=R"), "Invalid rank: 9");
}

#[test]
fn invalid_rank_or_file_is_reported() {
    assert_eq!(message_for("N9b7"), "Invalid rank/file: 9");
    assert_eq!(message_for("Nib7"), "Invalid rank/file: i");
    assert_eq!(message_for("R0xd8"), "Invalid rank/file: 0");
}

#[test]
fn invalid_piece_is_reported() {
    assert_eq!(message_for("Pd4"), "Invalid piece: P");
    assert_eq!(message_for("d1=Z"), "Invalid piece: Z");
    assert_eq!(message_for("b8=a"), "Invalid piece: a");
    assert_eq!(message_for("d8/"), "Invalid piece: d");
    assert_eq!(message_for("Zab2"), "Invalid piece: Z");
    assert_eq!(message_for("bxc8=p"), "Invalid piece: p");
    assert_eq!(message_for("O-0"), "Invalid piece: O");
}

#[test]
fn invalid_piece_or_file_is_reported() {
    assert_eq!(message_for("Lxd4"), "Invalid piece/file: L");
    assert_eq!(message_for("ixd4"), "Invalid piece/file: i");
}

#[test]
fn invalid_takes_symbol_is_reported() {
    assert_eq!(message_for("Ra-d8"), "Invalid takes symbol: -");
    assert_eq!(message_for("b:c8=R"), "Invalid takes symbol: :");
    assert_eq!(message_for("O-O-0"), "Invalid takes symbol: O");
    assert_eq!(message_for("RaXd8"), "Invalid takes symbol: X");
}

#[test]
fn invalid_promotion_symbol_is_reported() {
    assert_eq!(message_for("bxc8-R"), "Invalid promotion symbol: -");
    assert_eq!(message_for("bxc8xR"), "Invalid promotion symbol: x");
}

#[test]
fn a_second_king_is_reported() {
    assert_eq!(message_for("Kab2"), "Invalid piece: K");
    assert_eq!(message_for("Kaxb2"), "Invalid piece: K");
    assert_eq!(message_for("K1b2"), "Invalid piece: K");
}

#[test]
fn the_parts_are_looked_at_in_a_fixed_order() {
    // The promoted piece comes before the promotion mark, the mark before
    // the capture mark, that before the file, the file before the square.
    assert_eq!(message_for("9-z9-p"), "Invalid piece: p");
    assert_eq!(message_for("9-z9-Q"), "Invalid promotion symbol: -");
    assert_eq!(message_for("9-z9=Q"), "Invalid takes symbol: -");
    assert_eq!(message_for("9xz9=Q"), "Invalid file: 9");
    assert_eq!(message_for("axz9=Q"), "Invalid file: z");
    assert_eq!(message_for("axb9=Q"), "Invalid rank: 9");
    // In a capture by one of two pieces: the capture mark, what tells the
    // pieces apart, the piece, the square.
    assert_eq!(message_for("K9-z9"), "Invalid takes symbol: -");
    assert_eq!(message_for("K9xz9"), "Invalid rank/file: 9");
    assert_eq!(message_for("Kaxz9"), "Invalid piece: K");
    assert_eq!(message_for("Zaxz9"), "Invalid piece: Z");
    assert_eq!(message_for("Raxz9"), "Invalid file: z");
    // With four characters a capture is told by its second character, a
    // promotion by its third.
    assert_eq!(message_for("ax=Q"), "Invalid file: =");
    assert_eq!(message_for("a9=Q"), "Invalid rank: 9");
    assert_eq!(message_for("a8=q"), "Invalid piece: q");
}

#[test]
fn characters_beyond_ascii_are_refused_without_panic() {
    assert_eq!(message_for("é"), "Move is too short: é");
    assert_eq!(message_for("é4"), "Invalid file: é");
    assert_eq!(message_for("Né"), "Invalid file: N");
    assert_eq!(message_for("Nfé"), "Invalid rank: é");
    assert_eq!(message_for("♘f3"), "Invalid piece: ♘");
    assert_eq!(message_for("ééééééé+"), "Move is too long: ééééééé");
    assert!(!accepted("e４"));
}

#[test]
fn moves_compare_by_their_notation() {
    let first = AlgebraicMove::from_algebraic(String::from("Nf3"));
    let same = AlgebraicMove::from_algebraic(String::from("Nf3"));
    let checking = AlgebraicMove::from_algebraic(String::from("Nf3+"));

    assert!(first == same);
    assert!(first != checking);
    assert!(first.clone() == first);
    assert_eq!(first.clone().to_algebraic(), "Nf3");
}

#[test]
fn san_error_keeps_its_message() {
    let san_error = SANError::new(String::from("Invalid file: D"));

    assert_eq!(san_error.message(), "Invalid file: D");
    assert_eq!(san_error, SANError::new(String::from("Invalid file: D")));
    assert_ne!(san_error, SANError::new(String::from("Invalid file: d")));
}

#[test]
fn the_message_tells_the_fault() {
    // One text for each fault, and for some faults two that differ in what
    // the fault carries: no two of the messages are the same.
    let texts = [
        "", "5", "e+", "Raaaxd8", "Raaaxd9", "D4", "i4", "e0", "e9", "N9b7", "Nib7", "Pd4",
        "Zd4", "Lxd4", "ixd4", "Ra-d8", "Ra:d8", "bxc8-R", "bxc8:R", "Kab2",
    ];
    let messages: Vec<String> = texts.iter().map(|text| message_for(text)).collect();

    for (i, message) in messages.iter().enumerate() {
        for other in &messages[i + 1..] {
            assert_ne!(message, other);
        }
    }
}

#[test]
fn texts_with_the_same_fault_have_the_same_message() {
    assert_eq!(message_for("Ra-d8"), message_for("Qh-e1+"));
    assert_eq!(message_for("D4"), message_for("ND4"));
    assert_eq!(message_for("Kab2"), message_for("K1xb2"));
}
