use vstd::prelude::*;
use vstd::std_specs::cmp::PartialEqSpec;
use vstd::std_specs::cmp::PartialEqSpecImpl;
use vstd::string::*;

use crate::moves::Move;
use crate::moves::SANError;
use crate::parsing::PGNGame;
use crate::text::text_is;
use crate::text::texts;

verus! {

/// The notations of a sequence of moves, in order.
pub open spec fn notations<M: Move>(moves: Seq<M>) -> Seq<Seq<char>> {
    moves.map_values(|chess_move: M| chess_move.notation())
}

/// An interface for listing moves within a game or similar structure.
pub trait ListMoves<M: Move> {
    /// The moves that were played, each by its notation, from the first on.
    spec fn line(&self) -> Seq<Seq<char>>;

    /// Returns all moves within the type, in the order in which they were played.
    fn list_moves(&self) -> (moves: Vec<M>)
        ensures
            notations(moves@) == self.line(),
    ;
}

/// A way of representing games based on moves played. Implements ListMoves.
#[derive(Debug)]
pub struct GameMoves<M: Move> {
    moves: Vec<M>,
}

impl<M: Move> Clone for GameMoves<M> {
    fn clone(&self) -> (copy: Self)
        ensures
            copy.line() == self.line(),
    {
        GameMoves { moves: self.list_moves() }
    }
}

impl<M: Move> PartialEq for GameMoves<M> {
    fn eq(&self, other: &Self) -> (equal: bool) {
        if self.moves.len() != other.moves.len() {
            assert(self.line().len() != other.line().len());
            return false;
        }
        let mut i: usize = 0;
        while i < self.moves.len()
            invariant
                i <= self.moves.len(),
                self.moves.len() == other.moves.len(),
                forall|j: int|
                    0 <= j < i ==> (#[trigger] self.moves[j]).notation()
                        == other.moves[j].notation(),
            decreases self.moves.len() - i,
        {
            proof {
                M::lemma_equal_by_notation(&self.moves[i as int], &other.moves[i as int]);
            }
            if self.moves[i] != other.moves[i] {
                assert(self.line()[i as int] != other.line()[i as int]);
                return false;
            }
            i += 1;
        }
        assert(self.line() =~= other.line());
        true
    }
}

impl<M: Move> Eq for GameMoves<M> {

}

/// Two games are equal exactly if the same moves were played in them.
impl<M: Move> PartialEqSpecImpl for GameMoves<M> {
    open spec fn obeys_eq_spec() -> bool {
        true
    }

    open spec fn eq_spec(&self, other: &Self) -> bool {
        self.line() == other.line()
    }
}

impl<M: Move> View for GameMoves<M> {
    type V = Seq<M>;

    closed spec fn view(&self) -> Seq<M> {
        self.moves@
    }
}

impl<M: Move> GameMoves<M> {
    /// Constructs a new `GameMoves<M>` of the moves played.
    pub fn new(moves: Vec<M>) -> (game: GameMoves<M>)
        ensures
            game@ == moves@,
    {
        GameMoves { moves: moves }
    }
}

impl<M: Move> ListMoves<M> for GameMoves<M> {
    open spec fn line(&self) -> Seq<Seq<char>> {
        notations(self@)
    }

    fn list_moves(&self) -> (moves: Vec<M>) {
        let moves = self.moves.clone();
        proof {
            assert forall|i: int| 0 <= i < moves@.len() implies moves@[i].notation()
                == self@[i].notation() by {
                M::lemma_clone_keeps_notation(&self.moves@[i], &moves@[i]);
            }
        }
        moves
    }
}

/// Interface for types that give the result of a chess game.
pub trait GiveResult {
    /// How the game ended.
    spec fn outcome(&self) -> GameResult;

    /// Returns the result of this game.
    fn result(&self) -> (result: GameResult)
        ensures
            result == self.outcome(),
    ;
}

/// Enum representing the possible results in a game.
#[derive(Debug, Clone, Copy, PartialEq, Eq, Structural)]
pub enum GameResult {
    WhiteWon,
    BlackWon,
    Draw,
}

/// The result that a text stands for: `1-0`, `0-1` or `1/2-1/2`.
pub open spec fn result_of(text: Seq<char>) -> Option<GameResult> {
    if text == "1-0"@ {
        Some(GameResult::WhiteWon)
    } else if text == "0-1"@ {
        Some(GameResult::BlackWon)
    } else if text == "1/2-1/2"@ {
        Some(GameResult::Draw)
    } else {
        None
    }
}

impl GameResult {
    /// The result that `text` stands for, if it stands for one.
    pub fn parse(text: &str) -> (result: Option<GameResult>)
        ensures
            result == result_of(text@),
    {
        if text_is(text, "1-0") {
            Some(GameResult::WhiteWon)
        } else if text_is(text, "0-1") {
            Some(GameResult::BlackWon)
        } else if text_is(text, "1/2-1/2") {
            Some(GameResult::Draw)
        } else {
            None
        }
    }

    /// The result that `string` stands for.
    pub fn from(string: String) -> (result: GameResult)
        requires
            result_of(string@) is Some,
        ensures
            result_of(string@) == Some(result),
    {
        match GameResult::parse(string.as_str()) {
            Some(result) => result,
            None => unreached(),
        }
    }
}

impl GiveResult for GameResult {
    open spec fn outcome(&self) -> GameResult {
        *self
    }

    fn result(&self) -> (result: GameResult) {
        *self
    }
}

/// A generic representation of a chess game.
#[derive(Debug)]
pub struct Game<M: Move> {
    result: GameResult,
    moves: GameMoves<M>,
    white_player: String,
    black_player: String,
}

impl<M: Move> Clone for Game<M> {
    fn clone(&self) -> (copy: Self)
        ensures
            copy.outcome() == self.outcome(),
            copy.line() == self.line(),
            copy.white_player() == self.white_player(),
            copy.black_player() == self.black_player(),
    {
        Game {
            result: self.result,
            moves: self.moves.clone(),
            white_player: self.white_player.clone(),
            black_player: self.black_player.clone(),
        }
    }
}

impl<M: Move> PartialEq for Game<M> {
    fn eq(&self, other: &Self) -> (equal: bool) {
        self.result == other.result && self.moves == other.moves && self.white_player
            == other.white_player && self.black_player == other.black_player
    }
}

impl<M: Move> Eq for Game<M> {

}

/// Two games are equal exactly if they ended in the same way, the same
/// moves were played in them, and the players had the same names.
impl<M: Move> PartialEqSpecImpl for Game<M> {
    open spec fn obeys_eq_spec() -> bool {
        true
    }

    open spec fn eq_spec(&self, other: &Self) -> bool {
        &&& self.outcome() == other.outcome()
        &&& self.line() == other.line()
        &&& self.white_player() == other.white_player()
        &&& self.black_player() == other.black_player()
    }
}

/// What keeps the record of a game from being a game.
#[derive(Debug)]
pub enum GameError {
    /// One of the moves is not in algebraic notation.
    InvalidMove(SANError),
    /// The record names no result.
    NoResult,
    /// The record does not name the player of the white pieces.
    NoWhitePlayer,
    /// The record does not name the player of the black pieces.
    NoBlackPlayer,
}

/// What a record can lack: a `GameError`, with the message in place of the
/// error of the move.
pub enum Lack {
    Move(Seq<char>),
    Result,
    WhitePlayer,
    BlackPlayer,
}

impl PartialEq for GameError {
    fn eq(&self, other: &Self) -> (equal: bool) {
        match (self, other) {
            (GameError::InvalidMove(error), GameError::InvalidMove(other_error)) => error
                == other_error,
            (GameError::NoResult, GameError::NoResult) => true,
            (GameError::NoWhitePlayer, GameError::NoWhitePlayer) => true,
            (GameError::NoBlackPlayer, GameError::NoBlackPlayer) => true,
            _ => false,
        }
    }
}

impl Eq for GameError {

}

/// Two errors are equal exactly if they name the same lack.
impl PartialEqSpecImpl for GameError {
    open spec fn obeys_eq_spec() -> bool {
        true
    }

    open spec fn eq_spec(&self, other: &Self) -> bool {
        self@ == other@
    }
}

impl View for GameError {
    type V = Lack;

    open spec fn view(&self) -> Lack {
        match self {
            GameError::InvalidMove(error) => Lack::Move(error@),
            GameError::NoResult => Lack::Result,
            GameError::NoWhitePlayer => Lack::WhitePlayer,
            GameError::NoBlackPlayer => Lack::BlackPlayer,
        }
    }
}

/// The place of the first of `texts` that `M` does not accept as a move, or
/// the number of texts where it accepts them all.
pub open spec fn first_refused<M: Move>(texts: Seq<Seq<char>>) -> int
    decreases texts.len(),
{
    if texts.len() == 0 || !M::accepts(texts[0]) {
        0
    } else {
        1 + first_refused::<M>(texts.drop_first())
    }
}

/// `first_refused` is the place of a text that is refused, or the number of
/// texts, and all texts before it are accepted.
pub proof fn lemma_first_refused<M: Move>(texts: Seq<Seq<char>>)
    ensures
        0 <= first_refused::<M>(texts) <= texts.len(),
        first_refused::<M>(texts) < texts.len() ==> !M::accepts(
            texts[first_refused::<M>(texts)],
        ),
        forall|i: int| 0 <= i < first_refused::<M>(texts) ==> M::accepts(#[trigger] texts[i]),
    decreases texts.len(),
{
    if texts.len() > 0 && M::accepts(texts[0]) {
        let rest = texts.drop_first();
        lemma_first_refused::<M>(rest);
        assert forall|i: int| 0 <= i < first_refused::<M>(texts) implies M::accepts(
            #[trigger] texts[i],
        ) by {
            if i > 0 {
                assert(rest[i - 1] == texts[i]);
            }
        }
    }
}

/// Where the first `accepted` of `texts` are accepted, `first_refused` is
/// at least `accepted`; where the next one is refused, it is `accepted`.
pub proof fn lemma_first_refused_from<M: Move>(texts: Seq<Seq<char>>, accepted: int)
    requires
        0 <= accepted <= texts.len(),
        forall|i: int| 0 <= i < accepted ==> M::accepts(#[trigger] texts[i]),
    ensures
        accepted <= first_refused::<M>(texts) <= texts.len(),
        accepted < texts.len() && !M::accepts(texts[accepted]) ==> first_refused::<M>(texts)
            == accepted,
{
    lemma_first_refused::<M>(texts);
}

impl<M: Move> Game<M> {
    /// The name of the player of the white pieces.
    pub closed spec fn white_player(&self) -> Seq<char> {
        self.white_player@
    }

    /// The name of the player of the black pieces.
    pub closed spec fn black_player(&self) -> Seq<char> {
        self.black_player@
    }

    /// Whether the game is what `pgn_game` records.
    pub open spec fn records(&self, pgn_game: &PGNGame) -> bool {
        &&& self.line() == pgn_game@.moves
        &&& Some(self.outcome()) == pgn_game@.result
        &&& Some(self.white_player()) == pgn_game@.white_player
        &&& Some(self.black_player()) == pgn_game@.black_player
    }

    /// Whether `pgn_game` records a whole game: moves that `M` accepts, a
    /// result and both players.
    pub open spec fn complete(pgn_game: &PGNGame) -> bool {
        &&& forall|i: int|
            0 <= i < pgn_game@.moves.len() ==> M::accepts(#[trigger] pgn_game@.moves[i])
        &&& pgn_game@.result is Some
        &&& pgn_game@.white_player is Some
        &&& pgn_game@.black_player is Some
    }

    /// A record is that of a whole game exactly if it lacks nothing.
    pub proof fn lemma_complete_iff_no_lack(pgn_game: &PGNGame)
        ensures
            Self::complete(pgn_game) <==> Self::lack(pgn_game) is None,
    {
        lemma_first_refused::<M>(pgn_game@.moves);
    }

    /// What keeps `pgn_game` from being the record of a whole game, if
    /// anything does: the first move that `M` refuses, else the result,
    /// else a player.
    pub open spec fn lack(pgn_game: &PGNGame) -> Option<Lack> {
        let refused = first_refused::<M>(pgn_game@.moves);
        if refused < pgn_game@.moves.len() {
            Some(Lack::Move(M::refusal(pgn_game@.moves[refused])))
        } else if pgn_game@.result is None {
            Some(Lack::Result)
        } else if pgn_game@.white_player is None {
            Some(Lack::WhitePlayer)
        } else if pgn_game@.black_player is None {
            Some(Lack::BlackPlayer)
        } else {
            None
        }
    }

    /// The game that `pgn_game` records, or what `pgn_game` lacks.
    pub fn try_from(pgn_game: PGNGame) -> (converted: Result<Game<M>, GameError>)
        ensures
            match converted {
                Ok(game) => Self::lack(&pgn_game) is None && game.records(&pgn_game),
                Err(error) => Self::lack(&pgn_game) == Some(error@),
            },
    {
        let mut moves: Vec<M> = Vec::new();
        let san_moves = pgn_game.moves();

        let mut i: usize = 0;
        while i < san_moves.len()
            invariant
                i <= san_moves.len(),
                texts(san_moves@) == pgn_game@.moves,
                moves@.len() == i,
                forall|j: int| 0 <= j < i ==> M::accepts(#[trigger] pgn_game@.moves[j]),
                forall|j: int|
                    0 <= j < i ==> (#[trigger] moves@[j]).notation() == pgn_game@.moves[j],
            decreases san_moves.len() - i,
        {
            match M::try_from_algebraic(san_moves[i].clone()) {
                Ok(chess_move) => moves.push(chess_move),
                Err(error) => {
                    proof {
                        lemma_first_refused_from::<M>(pgn_game@.moves, i as int);
                    }
                    return Err(GameError::InvalidMove(error));
                },
            }
            i += 1;
        }
        proof {
            lemma_first_refused_from::<M>(pgn_game@.moves, i as int);
        }
        assert(notations(moves@) =~= pgn_game@.moves);
        let result = match pgn_game.result() {
            Some(result) => result,
            None => {
                return Err(GameError::NoResult);
            },
        };
        let white_player = match pgn_game.white_player() {
            Some(name) => String::from_str(name),
            None => {
                return Err(GameError::NoWhitePlayer);
            },
        };
        let black_player = match pgn_game.black_player() {
            Some(name) => String::from_str(name),
            None => {
                return Err(GameError::NoBlackPlayer);
            },
        };

        Ok(
            Game {
                result: result,
                moves: GameMoves::new(moves),
                white_player: white_player,
                black_player: black_player,
            },
        )
    }

    /// The game that `pgn_game` records, for a record of a whole game.
    pub fn from(pgn_game: PGNGame) -> (game: Game<M>)
        requires
            Self::complete(&pgn_game),
        ensures
            game.records(&pgn_game),
    {
        proof {
            Self::lemma_complete_iff_no_lack(&pgn_game);
        }
        match Game::try_from(pgn_game) {
            Ok(game) => game,
            Err(_) => unreached(),
        }
    }
}

impl<M: Move> GiveResult for Game<M> {
    closed spec fn outcome(&self) -> GameResult {
        self.result
    }

    fn result(&self) -> (result: GameResult) {
        self.result.result()
    }
}

impl<M: Move> ListMoves<M> for Game<M> {
    closed spec fn line(&self) -> Seq<Seq<char>> {
        self.moves.line()
    }

    fn list_moves(&self) -> (moves: Vec<M>) {
        self.moves.list_moves()
    }
}

} // verus!
