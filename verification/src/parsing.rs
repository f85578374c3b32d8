use vstd::prelude::*;
use vstd::string::*;

use crate::game::result_of;
use crate::game::GameResult;
use crate::text::bytes_spell;
use crate::text::spelled;
use crate::text::texts;

verus! {

/// The text that `pgn_reader::RawHeader::decode_utf8` makes of the bytes of
/// a header value, or `None` where it makes none of them.
pub uninterp spec fn decoded_header(value: Seq<u8>) -> Option<Seq<char>>;

/// Calls `pgn_reader::RawHeader::decode_utf8` on a header value of `value`.
/// The method takes the escapes out of the value and reads what is left as
/// UTF-8; it fails where that is no UTF-8. What it returns depends on the
/// bytes alone, and is named `decoded_header`.
#[verifier::external_body]
fn decode_utf8(value: &[u8]) -> (text: Option<String>)
    ensures
        match text {
            Some(text) => decoded_header(value@) == Some(text@),
            None => decoded_header(value@) is None,
        },
{
    match pgn_reader::RawHeader(value).decode_utf8() {
        Ok(text) => Some(text.into_owned()),
        Err(_) => None,
    }
}

/// What was read of a game.
pub struct GameRecord {
    pub moves: Seq<Seq<char>>,
    pub result: Option<GameResult>,
    pub white_player: Option<Seq<char>>,
    pub black_player: Option<Seq<char>>,
}

/// The output of GameParser.
pub struct PGNGame {
    moves: Vec<String>,
    result: Option<GameResult>,
    white_player: Option<String>,
    black_player: Option<String>,
}

impl View for PGNGame {
    type V = GameRecord;

    closed spec fn view(&self) -> GameRecord {
        GameRecord {
            moves: texts(self.moves@),
            result: self.result,
            white_player: match self.white_player {
                Some(name) => Some(name@),
                None => None,
            },
            black_player: match self.black_player {
                Some(name) => Some(name@),
                None => None,
            },
        }
    }
}

/// The record of which nothing was read yet.
pub open spec fn blank() -> GameRecord {
    GameRecord { moves: Seq::empty(), result: None, white_player: None, black_player: None }
}

impl PGNGame {
    fn new() -> (pgn_game: PGNGame)
        ensures
            pgn_game@ == blank(),
    {
        let pgn_game = PGNGame {
            moves: Vec::new(),
            result: None,
            white_player: None,
            black_player: None,
        };
        assert(pgn_game@.moves =~= Seq::empty());
        pgn_game
    }

    /// Returns the moves found within the PGN input.
    pub fn moves(&self) -> (moves: &Vec<String>)
        ensures
            texts(moves@) == self@.moves,
    {
        &self.moves
    }

    /// Returns the result found within the PGN input.
    pub fn result(&self) -> (result: Option<GameResult>)
        ensures
            result == self@.result,
    {
        self.result
    }

    /// Returns the name of the player playing white found within the PGN input.
    pub fn white_player(&self) -> (name: Option<&str>)
        ensures
            match name {
                Some(name) => self@.white_player == Some(name@),
                None => self@.white_player is None,
            },
    {
        match &self.white_player {
            Some(string) => Some(string.as_str()),
            None => None,
        }
    }

    /// Returns the name of the player playing black found within the PGN input.
    pub fn black_player(&self) -> (name: Option<&str>)
        ensures
            match name {
                Some(name) => self@.black_player == Some(name@),
                None => self@.black_player is None,
            },
    {
        match &self.black_player {
            Some(string) => Some(string.as_str()),
            None => None,
        }
    }
}

/// Whether a header with the name `key` says something that the parser
/// keeps: the result or one of the players.
pub open spec fn is_kept(key: Seq<u8>) -> bool {
    spelled(key) == "Result"@ || spelled(key) == "White"@ || spelled(key) == "Black"@
}

/// Whether a header with the name `key` can be kept when its value reads
/// `text`: the value has to be text, and that of the result one of the three
/// results.
pub open spec fn is_readable(key: Seq<u8>, text: Option<Seq<char>>) -> bool {
    match text {
        Some(text) => spelled(key) == "Result"@ ==> result_of(text) is Some,
        None => false,
    }
}

/// The record after a header with the name `key` whose value reads `text`.
/// A header that the parser does not keep, or cannot read, leaves the record
/// as it is.
pub open spec fn with_header(record: GameRecord, key: Seq<u8>, text: Option<Seq<char>>)
    -> GameRecord {
    if !is_kept(key) || !is_readable(key, text) {
        record
    } else if spelled(key) == "Result"@ {
        GameRecord { result: result_of(text->0), ..record }
    } else if spelled(key) == "White"@ {
        GameRecord { white_player: text, ..record }
    } else {
        GameRecord { black_player: text, ..record }
    }
}

/// A visitor of the events of a PGN reader. Extracts relevant game information from
/// pgn input.
pub struct GameParser {
    pgn_game: PGNGame,
}

impl View for GameParser {
    type V = GameRecord;

    closed spec fn view(&self) -> GameRecord {
        self.pgn_game@
    }
}

impl GameParser {
    /// Creates a new `GameParser`.
    pub fn new() -> (parser: GameParser)
        ensures
            parser@ == blank(),
    {
        GameParser { pgn_game: PGNGame::new() }
    }

    /// Takes a header whose value was read as `text`, or could not be read
    /// where `text` is `None`. Returns whether the header was one that says
    /// nothing to the parser, or one that it could keep.
    pub fn keep_header(&mut self, key: &[u8], text: Option<String>) -> (taken: bool)
        ensures
            final(self)@ == with_header(
                old(self)@,
                key@,
                match text {
                    Some(text) => Some(text@),
                    None => None,
                },
            ),
            taken == (is_kept(key@) ==> is_readable(
                key@,
                match text {
                    Some(text) => Some(text@),
                    None => None,
                },
            )),
    {
        let is_result = bytes_spell(key, "Result");
        let is_white = bytes_spell(key, "White");
        let is_black = bytes_spell(key, "Black");
        if !is_result && !is_white && !is_black {
            return true;
        }
        let text = match text {
            Some(text) => text,
            None => {
                return false;
            },
        };
        if is_result {
            match GameResult::parse(text.as_str()) {
                Some(result) => {
                    self.pgn_game.result = Some(result);
                },
                None => {
                    return false;
                },
            }
        } else if is_white {
            self.pgn_game.white_player = Some(text);
        } else {
            self.pgn_game.black_player = Some(text);
        }
        true
    }

    /// Takes a header with the name `key` and the raw bytes `value`. Returns
    /// whether the header was one that says nothing to the parser, or one
    /// that it could keep.
    pub fn header(&mut self, key: &[u8], value: &[u8]) -> (taken: bool)
        ensures
            final(self)@ == with_header(old(self)@, key@, decoded_header(value@)),
            taken == (is_kept(key@) ==> is_readable(key@, decoded_header(value@))),
    {
        if bytes_spell(key, "Result") || bytes_spell(key, "White") || bytes_spell(key, "Black") {
            let text = decode_utf8(value);
            self.keep_header(key, text)
        } else {
            true
        }
    }

    /// Takes the next move of the game, in the notation in which it was read.
    pub fn san(&mut self, san: String)
        ensures
            final(self)@ == (GameRecord { moves: old(self)@.moves.push(san@), ..old(self)@ }),
    {
        self.pgn_game.moves.push(san);
        assert(texts(self.pgn_game.moves@) =~= texts(old(self).pgn_game.moves@).push(san@));
    }

    /// Whether to pass over a variation that begins: always.
    pub fn begin_variation(&mut self) -> (skip: bool)
        ensures
            skip,
            final(self)@ == old(self)@,
    {
        true
    }

    /// Hands out what was read of the game, and starts anew.
    pub fn end_game(&mut self) -> (pgn_game: PGNGame)
        ensures
            pgn_game@ == old(self)@,
            final(self)@ == blank(),
    {
        let mut pgn_game = PGNGame::new();
        std::mem::swap(&mut self.pgn_game, &mut pgn_game);
        pgn_game
    }
}

} // verus!
