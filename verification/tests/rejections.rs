use pfen::{parse, PfenError};

const BOARD: &str = "rnbqkbnr/pppppppp/8/8/8/8/PPPPPPPP/RNBQKBNR";

fn with_board(board: &str) -> String {
    format!("{} w KQkq - 0 1", board)
}

fn with_fields(fields: &str) -> String {
    format!("{} {}", BOARD, fields)
}

#[test]
fn too_few_segments_carry_their_count() {
    assert_eq!(parse(""), Err(PfenError::TooFewSegments(1)));
    assert_eq!(parse("8/8"), Err(PfenError::TooFewSegments(1)));
    assert_eq!(parse("a b c"), Err(PfenError::TooFewSegments(3)));
    assert_eq!(parse(&with_fields("w KQkq - 0")), Err(PfenError::TooFewSegments(5)));
}

#[test]
fn too_many_segments_carry_the_total_count() {
    assert_eq!(parse(&with_fields("w KQkq - 0 1 x")), Err(PfenError::TooManySegments(7)));
    assert_eq!(parse(&with_fields("w KQkq - 0 1 x y z")), Err(PfenError::TooManySegments(9)));
    assert_eq!(parse("x x x x x x x x"), Err(PfenError::TooManySegments(8)));
}

#[test]
fn adjacent_spaces_enclose_an_empty_segment() {
    assert_eq!(parse(&with_fields("w KQkq - 0 1 ")), Err(PfenError::TooManySegments(7)));
    assert_eq!(parse(&with_fields("w  KQkq - 0 1")), Err(PfenError::TooManySegments(7)));
    assert_eq!(parse(&with_fields("w  - 0 1")), Err(PfenError::InvalidCastling("")));
    assert_eq!(parse("     "), Err(PfenError::InvalidColor("")));
}

#[test]
fn segment_count_is_judged_before_the_fields() {
    assert_eq!(parse("?? x y z"), Err(PfenError::TooFewSegments(4)));
    assert_eq!(parse("?? x y z 1 2 3"), Err(PfenError::TooManySegments(7)));
}

#[test]
fn turn_must_be_w_or_b() {
    assert_eq!(parse(&with_fields("x KQkq - 0 1")), Err(PfenError::InvalidColor("x")));
    assert_eq!(parse(&with_fields("W KQkq - 0 1")), Err(PfenError::InvalidColor("W")));
    assert_eq!(parse(&with_fields("wb KQkq - 0 1")), Err(PfenError::InvalidColor("wb")));
    assert_eq!(parse(&with_fields("ww KQkq - 0 1")), Err(PfenError::InvalidColor("ww")));
    assert_eq!(parse(&with_fields("\u{e9} KQkq - 0 1")), Err(PfenError::InvalidColor("\u{e9}")));
    assert!(parse(&with_fields("w KQkq - 0 1")).is_ok());
    assert!(parse(&with_fields("b KQkq - 0 1")).is_ok());
}

#[test]
fn castling_must_be_dash_or_letters() {
    assert_eq!(parse(&with_fields("w KQkqK - 0 1")), Err(PfenError::InvalidCastling("KQkqK")));
    assert_eq!(parse(&with_fields("w Kx - 0 1")), Err(PfenError::InvalidCastling("Kx")));
    assert_eq!(parse(&with_fields("w -- - 0 1")), Err(PfenError::InvalidCastling("--")));
    assert_eq!(parse(&with_fields("w K- - 0 1")), Err(PfenError::InvalidCastling("K-")));
    assert_eq!(parse(&with_fields("w \u{3ba} - 0 1")), Err(PfenError::InvalidCastling("\u{3ba}")));
}

#[test]
fn castling_letters_in_any_order_and_repeated() {
    let any_order = parse(&with_fields("w qkQK - 0 1")).unwrap();
    assert!(any_order.castling.white_kingside && any_order.castling.white_queenside);
    assert!(any_order.castling.black_kingside && any_order.castling.black_queenside);
    let repeated = parse(&with_fields("w KKKK - 0 1")).unwrap();
    assert!(repeated.castling.white_kingside);
    assert!(!repeated.castling.white_queenside);
    assert!(!repeated.castling.black_kingside);
    assert!(!repeated.castling.black_queenside);
    let none = parse(&with_fields("w - - 0 1")).unwrap();
    assert_eq!(none.castling, pfen::Castling::default());
}

#[test]
fn en_passant_is_file_letter_and_digit_from_zero() {
    assert_eq!(parse(&with_fields("w - a0 0 1")).unwrap().en_passant, Some((0, 0)));
    assert_eq!(parse(&with_fields("w - e3 0 1")).unwrap().en_passant, Some((4, 3)));
    assert_eq!(parse(&with_fields("w - h7 0 1")).unwrap().en_passant, Some((7, 7)));
    assert_eq!(parse(&with_fields("w - - 0 1")).unwrap().en_passant, None);
}

#[test]
fn en_passant_rejections() {
    assert_eq!(parse(&with_fields("w - e8 0 1")), Err(PfenError::InvalidEnPassant("e8")));
    assert_eq!(parse(&with_fields("w - i3 0 1")), Err(PfenError::InvalidEnPassant("i3")));
    assert_eq!(parse(&with_fields("w - E3 0 1")), Err(PfenError::InvalidEnPassant("E3")));
    assert_eq!(parse(&with_fields("w - e 0 1")), Err(PfenError::InvalidEnPassant("e")));
    assert_eq!(parse(&with_fields("w - e33 0 1")), Err(PfenError::InvalidEnPassant("e33")));
    assert_eq!(parse(&with_fields("w - e3e3 0 1")), Err(PfenError::InvalidEnPassant("e3e3")));
    assert_eq!(parse(&with_fields("w -  0 1")), Err(PfenError::InvalidEnPassant("")));
}

#[test]
fn counters_are_unsigned_decimal_numbers() {
    let position = parse(&with_fields("w - - 007 4294967295")).unwrap();
    assert_eq!(position.halfmove, 7);
    assert_eq!(position.fullmove, 4294967295);
    assert_eq!(parse(&with_fields("w - - x 1")), Err(PfenError::InvalidHalfmove("x")));
    assert_eq!(parse(&with_fields("w - - -1 1")), Err(PfenError::InvalidHalfmove("-1")));
    assert_eq!(parse(&with_fields("w - - +1 1")), Err(PfenError::InvalidHalfmove("+1")));
    assert_eq!(parse(&with_fields("w - - 12a 1")), Err(PfenError::InvalidHalfmove("12a")));
    assert_eq!(
        parse(&with_fields("w - - 4294967296 1")),
        Err(PfenError::InvalidHalfmove("4294967296"))
    );
    assert_eq!(
        parse(&with_fields("w - - 0 4294967296")),
        Err(PfenError::InvalidFullmove("4294967296"))
    );
    assert_eq!(
        parse(&with_fields("w - - 0 99999999999999999999")),
        Err(PfenError::InvalidFullmove("99999999999999999999"))
    );
    assert_eq!(parse(&with_fields("w - - 0 1.5")), Err(PfenError::InvalidFullmove("1.5")));
    assert_eq!(parse(&with_fields("w - - 4294967290 4294967289")).unwrap().halfmove, 4294967290);
}

#[test]
fn fields_are_judged_in_order_and_before_the_board() {
    assert_eq!(parse("9/x x x x x x"), Err(PfenError::InvalidColor("x")));
    assert_eq!(parse("9/x w x x x x"), Err(PfenError::InvalidCastling("x")));
    assert_eq!(parse("9/x w - x x x"), Err(PfenError::InvalidEnPassant("x")));
    assert_eq!(parse("9/x w - - x x"), Err(PfenError::InvalidHalfmove("x")));
    assert_eq!(parse("9/x w - - 0 x"), Err(PfenError::InvalidFullmove("x")));
    assert_eq!(parse("9/x w - - 0 1"), Err(PfenError::RowTooLong("9")));
}

#[test]
fn rows_must_describe_eight_files() {
    assert_eq!(parse(&with_board("7/8/8/8/8/8/8/8")), Err(PfenError::RowTooShort("7")));
    assert_eq!(parse(&with_board("8/ppp/8/8/8/8/8/8")), Err(PfenError::RowTooShort("ppp")));
    assert_eq!(parse(&with_board("8//8/8/8/8/8/8")), Err(PfenError::RowTooShort("")));
    assert_eq!(parse(&with_board("8/8/8/8/8/8/8/p6")), Err(PfenError::RowTooShort("p6")));
    assert_eq!(parse(&with_board("8/44p/8/8/8/8/8/8")), Err(PfenError::RowTooLong("44p")));
    assert_eq!(parse(&with_board("8/8p/8/8/8/8/8/8")), Err(PfenError::RowTooLong("8p")));
    assert_eq!(parse(&with_board("8/p8/8/8/8/8/8/8")), Err(PfenError::RowTooLong("p8")));
    assert_eq!(
        parse(&with_board("ppppppppp/8/8/8/8/8/8/8")),
        Err(PfenError::RowTooLong("ppppppppp"))
    );
    assert_eq!(parse(&with_board("8/8/81/8/8/8/8/8")), Err(PfenError::RowTooLong("81")));
}

#[test]
fn digits_zero_and_nine_make_a_row_too_long() {
    assert_eq!(parse(&with_board("9/8/8/8/8/8/8/8")), Err(PfenError::RowTooLong("9")));
    assert_eq!(parse(&with_board("8/08/8/8/8/8/8/8")), Err(PfenError::RowTooLong("08")));
    assert_eq!(parse(&with_board("8/8/p0/8/8/8/8/8")), Err(PfenError::RowTooLong("p0")));
}

#[test]
fn other_characters_are_invalid_pieces() {
    assert_eq!(parse(&with_board("8/8/7x/8/8/8/8/8")), Err(PfenError::InvalidPiece('x')));
    assert_eq!(parse(&with_board("8/8/8x/8/8/8/8/8")), Err(PfenError::InvalidPiece('x')));
    assert_eq!(parse(&with_board("8/8/7\u{e9}/8/8/8/8/8")), Err(PfenError::InvalidPiece('\u{e9}')));
    assert_eq!(parse(&with_board("8/8/7-/8/8/8/8/8")), Err(PfenError::InvalidPiece('-')));
    assert_eq!(parse(&with_board("x9/8/8/8/8/8/8/8")), Err(PfenError::InvalidPiece('x')));
    assert_eq!(parse(&with_board("9x/8/8/8/8/8/8/8")), Err(PfenError::RowTooLong("9x")));
}

#[test]
fn board_must_have_eight_rows() {
    assert_eq!(
        parse(&with_board("8/8/8/8/8/8/8")),
        Err(PfenError::TooFewRows("8/8/8/8/8/8/8"))
    );
    assert_eq!(parse(&with_board("8")), Err(PfenError::TooFewRows("8")));
    assert_eq!(
        parse(&with_board("8/8/8/8/8/8/8/8/8")),
        Err(PfenError::TooManyRows("8/8/8/8/8/8/8/8/8"))
    );
    assert_eq!(
        parse(&with_board("8/8/8/8/8/8/8/8/")),
        Err(PfenError::TooManyRows("8/8/8/8/8/8/8/8/"))
    );
    assert_eq!(
        parse(&with_board("8/8/8/8/8/8/8/8/pppppppp/x")),
        Err(PfenError::TooManyRows("8/8/8/8/8/8/8/8/pppppppp/x"))
    );
}

#[test]
fn a_faulty_row_is_reported_before_the_row_count() {
    assert_eq!(parse(&with_board("8/8/7")), Err(PfenError::RowTooShort("7")));
    assert_eq!(parse(&with_board("8/8/8/8/8/8/8/9/8")), Err(PfenError::RowTooLong("9")));
    assert_eq!(parse(&with_board("")), Err(PfenError::RowTooShort("")));
    assert_eq!(parse(&with_board("7/9/x")), Err(PfenError::RowTooShort("7")));
}
