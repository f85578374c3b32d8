use chesshound::game::GameResult;
use chesshound::parsing::GameParser;
use chesshound::parsing::PGNGame;
use pgn_reader::BufferedReader;
use pgn_reader::RawHeader;
use pgn_reader::SanPlus;
use pgn_reader::Skip;
use pgn_reader::Visitor;

struct Reading(GameParser);

impl Visitor for Reading {
    type Result = PGNGame;

    fn header(&mut self, key: &[u8], value: RawHeader<'_>) {
        assert!(self.0.header(key, value.0));
    }

    fn san(&mut self, san_plus: SanPlus) {
        self.0.san(san_plus.to_string());
    }

    fn begin_variation(&mut self) -> Skip {
        Skip(self.0.begin_variation())
    }

    fn end_game(&mut self) -> Self::Result {
        self.0.end_game()
    }
}

fn read(pgn: &[u8]) -> PGNGame {
    let mut reader = BufferedReader::new_cursor(&pgn[..]);

    let mut game_parser = Reading(GameParser::new());
    reader.read_game(&mut game_parser).unwrap().unwrap()
}

#[test]
fn game_visitor_should_find_correct_moves() {
    assert_eq!(
        read(b"1. e4 e5 2. Nf3 Nc6").moves(),
        &vec![String::from("e4"), String::from("e5"), String::from("Nf3"), String::from("Nc6")]
    );
    assert_eq!(
        read(b"1. d4 Nf6 2. c4 g6 3. Nc3").moves(),
        &vec![
            String::from("d4"),
            String::from("Nf6"),
            String::from("c4"),
            String::from("g6"),
            String::from("Nc3"),
        ]
    );
}

#[test]
fn game_visitor_should_find_correct_result() {
    assert_eq!(read(b"[Result \"0-1\"]\n1. e4 e5 2. Ke2").result(), Some(GameResult::BlackWon));
    assert_eq!(
        read(b"[Result \"1/2-1/2\"]\n1. e4 e5 2. Nf3 Nf6 3. Nxe5").result(),
        Some(GameResult::Draw)
    );
    assert_eq!(read(b"1. e4 e5 2. Nf3 Nf6 3. Nxe5").result(), None);
}

#[test]
fn game_visitor_should_find_correct_players() {
    let pgn_game = read(b"[White \"J.J. Jameson\"]\n[Black \"Hikaru Nakamura\"]\n1. e4 e5");
    assert_eq!(pgn_game.white_player(), Some("J.J. Jameson"));
    assert_eq!(pgn_game.black_player(), Some("Hikaru Nakamura"));

    let pgn_game = read(b"[White \"Nick\"]\n[Black \"Paul\"]\n1. e4 e5");
    assert_eq!(pgn_game.white_player(), Some("Nick"));
    assert_eq!(pgn_game.black_player(), Some("Paul"));

    let pgn_game = read(b"1. e4 e5 2. Nf3 Nf6 3. Nxe5");
    assert_eq!(pgn_game.white_player(), None);
    assert_eq!(pgn_game.black_player(), None);
}

#[test]
fn game_visitor_should_pass_over_variations() {
    assert_eq!(
        read(b"1. e4 (1. d4 d5) e5 2. Nf3 (2. f4 exf4 (2... d5)) Nc6").moves(),
        &vec![String::from("e4"), String::from("e5"), String::from("Nf3"), String::from("Nc6")]
    );
}

#[test]
fn game_visitor_starts_anew_after_each_game() {
    let pgn = b"[White \"Nick\"]\n[Result \"1-0\"]\n1. e4 e5 1-0\n\n[Black \"Paul\"]\n1. d4 *";
    let mut reader = BufferedReader::new_cursor(&pgn[..]);
    let mut game_parser = Reading(GameParser::new());

    let first = reader.read_game(&mut game_parser).unwrap().unwrap();
    let second = reader.read_game(&mut game_parser).unwrap().unwrap();

    assert_eq!(first.white_player(), Some("Nick"));
    assert_eq!(first.black_player(), None);
    assert_eq!(first.result(), Some(GameResult::WhiteWon));
    assert_eq!(first.moves(), &vec![String::from("e4"), String::from("e5")]);
    assert_eq!(second.white_player(), None);
    assert_eq!(second.black_player(), Some("Paul"));
    assert_eq!(second.result(), None);
    assert_eq!(second.moves(), &vec![String::from("d4")]);
    assert!(reader.read_game(&mut game_parser).unwrap().is_none());
}

#[test]
fn a_new_parser_has_read_nothing() {
    let pgn_game = GameParser::new().end_game();

    assert!(pgn_game.moves().is_empty());
    assert_eq!(pgn_game.result(), None);
    assert_eq!(pgn_game.white_player(), None);
    assert_eq!(pgn_game.black_player(), None);
}

#[test]
fn header_values_are_unescaped() {
    let mut game_parser = GameParser::new();

    assert!(game_parser.header(b"White", br#"J.J. \"The Editor\" Jameson"#));
    assert!(game_parser.header(b"Black", br#"back\\slash"#));

    let pgn_game = game_parser.end_game();
    assert_eq!(pgn_game.white_player(), Some("J.J. \"The Editor\" Jameson"));
    assert_eq!(pgn_game.black_player(), Some("back\\slash"));
}

#[test]
fn header_values_are_read_as_utf8() {
    let mut game_parser = GameParser::new();

    assert!(game_parser.header(b"White", "Dvořák".as_bytes()));

    assert_eq!(game_parser.end_game().white_player(), Some("Dvořák"));
}

#[test]
fn a_header_that_is_no_utf8_is_not_kept() {
    let mut game_parser = GameParser::new();
    assert!(game_parser.header(b"White", b"Nick"));

    assert!(!game_parser.header(b"White", b"\xff\xfe"));
    assert!(!game_parser.header(b"Black", b"\xc3"));
    assert!(!game_parser.header(b"Result", b"\xff"));

    let pgn_game = game_parser.end_game();
    assert_eq!(pgn_game.white_player(), Some("Nick"));
    assert_eq!(pgn_game.black_player(), None);
    assert_eq!(pgn_game.result(), None);
}

#[test]
fn a_result_that_is_none_of_the_three_is_not_kept() {
    let mut game_parser = GameParser::new();
    assert!(game_parser.header(b"Result", b"1-0"));

    assert!(!game_parser.header(b"Result", b"*"));
    assert!(!game_parser.header(b"Result", b""));

    assert_eq!(game_parser.end_game().result(), Some(GameResult::WhiteWon));
}

#[test]
fn other_headers_are_passed_over() {
    let mut game_parser = GameParser::new();

    assert!(game_parser.header(b"Event", b"Casual game"));
    assert!(game_parser.header(b"Site", b"\xff\xfe"));
    assert!(game_parser.header(b"white", b"lower case"));
    assert!(game_parser.header(b"Whit\xc3\xa9", b"not ascii"));
    assert!(game_parser.header(b"", b""));

    let pgn_game = game_parser.end_game();
    assert_eq!(pgn_game.white_player(), None);
    assert_eq!(pgn_game.black_player(), None);
    assert_eq!(pgn_game.result(), None);
}

#[test]
fn a_later_header_replaces_an_earlier_one() {
    let mut game_parser = GameParser::new();

    assert!(game_parser.header(b"White", b"Nick"));
    assert!(game_parser.header(b"White", b"Paul"));
    assert!(game_parser.header(b"Result", b"1-0"));
    assert!(game_parser.header(b"Result", b"0-1"));

    let pgn_game = game_parser.end_game();
    assert_eq!(pgn_game.white_player(), Some("Paul"));
    assert_eq!(pgn_game.result(), Some(GameResult::BlackWon));
}

#[test]
fn keep_header_takes_a_value_that_was_read() {
    let mut game_parser = GameParser::new();

    assert!(game_parser.keep_header(b"White", Some(String::from("Nick"))));
    assert!(game_parser.keep_header(b"Black", Some(String::from("Paul"))));
    assert!(game_parser.keep_header(b"Result", Some(String::from("1/2-1/2"))));
    assert!(game_parser.keep_header(b"Event", None));
    assert!(!game_parser.keep_header(b"White", None));
    assert!(!game_parser.keep_header(b"Result", Some(String::from("2-0"))));

    let pgn_game = game_parser.end_game();
    assert_eq!(pgn_game.white_player(), Some("Nick"));
    assert_eq!(pgn_game.black_player(), Some("Paul"));
    assert_eq!(pgn_game.result(), Some(GameResult::Draw));
}

#[test]
fn moves_are_kept_in_the_order_in_which_they_come() {
    let mut game_parser = GameParser::new();

    game_parser.san(String::from("e4"));
    game_parser.san(String::from("e5"));
    assert!(game_parser.begin_variation());
    game_parser.san(String::from("Nf3"));

    assert_eq!(
        game_parser.end_game().moves(),
        &vec![String::from("e4"), String::from("e5"), String::from("Nf3")]
    );
}
