use vstd::prelude::*;
use vstd::std_specs::cmp::PartialEqSpec;
use vstd::std_specs::cmp::PartialEqSpecImpl;
use vstd::string::*;

verus! {

/// `String::push` appends one character to the end of the string.
pub assume_specification[ String::push ](text: &mut String, ch: char)
    ensures
        final(text)@ == old(text)@.push(ch),
;

/// The first reason why a text is not a move in algebraic notation.
///
/// Each variant that names a character carries the offending one.
pub enum NotationFault {
    /// The text has no characters.
    EmptyInput,
    /// Without its check mark the text has fewer than two characters; carries
    /// the whole text.
    TooShort(Seq<char>),
    /// Without its check mark the text has more than six characters; carries
    /// the text without the mark.
    TooLong(Seq<char>),
    /// A file was expected.
    InvalidFile(char),
    /// A rank was expected.
    InvalidRank(char),
    /// A rank or a file was expected, to tell two pieces apart.
    InvalidRankOrFile(char),
    /// A piece letter was expected.
    InvalidPiece(char),
    /// A piece letter or a pawn's file was expected before a capture.
    InvalidPieceOrFile(char),
    /// The capture mark `x` was expected.
    InvalidTakesSymbol(char),
    /// The promotion mark `=` was expected.
    InvalidPromotionSymbol(char),
    /// A king was told apart from another king.
    InvalidDisambiguation,
}

impl NotationFault {
    /// The text that reports the fault.
    pub open spec fn message(self) -> Seq<char> {
        match self {
            NotationFault::EmptyInput => "Empty string"@,
            NotationFault::TooShort(text) => "Move is too short: "@ + text,
            NotationFault::TooLong(text) => "Move is too long: "@ + text,
            NotationFault::InvalidFile(symbol) => "Invalid file: "@.push(symbol),
            NotationFault::InvalidRank(symbol) => "Invalid rank: "@.push(symbol),
            NotationFault::InvalidRankOrFile(symbol) => "Invalid rank/file: "@.push(symbol),
            NotationFault::InvalidPiece(symbol) => "Invalid piece: "@.push(symbol),
            NotationFault::InvalidPieceOrFile(symbol) => "Invalid piece/file: "@.push(symbol),
            NotationFault::InvalidTakesSymbol(symbol) => "Invalid takes symbol: "@.push(symbol),
            NotationFault::InvalidPromotionSymbol(symbol) => "Invalid promotion symbol: "@.push(
                symbol,
            ),
            NotationFault::InvalidDisambiguation => "Invalid piece: K"@,
        }
    }
}

/// Errors related to invalid algebraic notation.
#[derive(Debug)]
pub struct SANError {
    message: String,
}

impl Clone for SANError {
    fn clone(&self) -> (copy: Self)
        ensures
            copy@ == self@,
    {
        SANError { message: self.message.clone() }
    }
}

impl PartialEq for SANError {
    fn eq(&self, other: &Self) -> (equal: bool) {
        self.message == other.message
    }
}

impl Eq for SANError {

}

/// Two errors are equal exactly if they have the same message.
impl PartialEqSpecImpl for SANError {
    open spec fn obeys_eq_spec() -> bool {
        true
    }

    open spec fn eq_spec(&self, other: &Self) -> bool {
        self@ == other@
    }
}

impl View for SANError {
    type V = Seq<char>;

    closed spec fn view(&self) -> Seq<char> {
        self.message@
    }
}

impl SANError {
    /// An error with the given message.
    pub fn new(message: String) -> (error: SANError)
        ensures
            error@ == message@,
    {
        SANError { message: message }
    }

    /// The message of the error.
    pub fn message(&self) -> (message: &str)
        ensures
            message@ == self@,
    {
        self.message.as_str()
    }

    /// An error whose message is `prefix` followed by `symbol`.
    fn naming(prefix: &str, symbol: char) -> (error: SANError)
        ensures
            error@ == prefix@.push(symbol),
    {
        let mut message = String::from_str(prefix);
        message.push(symbol);
        SANError::new(message)
    }

    /// An error whose message is `prefix` followed by `text`.
    fn quoting(prefix: &str, text: &str) -> (error: SANError)
        ensures
            error@ == prefix@ + text@,
    {
        let mut message = String::from_str(prefix);
        message.append(text);
        SANError::new(message)
    }
}

/// A check mark (`+`) or a mate mark (`#`).
pub open spec fn is_effect(symbol: char) -> bool {
    symbol == '+' || symbol == '#'
}

/// A file of the board, `a` to `h`.
pub open spec fn is_file(symbol: char) -> bool {
    'a' <= symbol <= 'h'
}

/// A rank of the board, `1` to `8`.
pub open spec fn is_rank(symbol: char) -> bool {
    '1' <= symbol <= '8'
}

/// The letter of a piece: knight, bishop, rook, queen or king.
pub open spec fn is_piece(symbol: char) -> bool {
    symbol == 'N' || symbol == 'B' || symbol == 'R' || symbol == 'Q' || symbol == 'K'
}

/// The letter of a piece of which a side can have two: any piece but the king.
pub open spec fn is_specified_piece(symbol: char) -> bool {
    is_piece(symbol) && symbol != 'K'
}

/// A square of the board: a file followed by a rank.
pub open spec fn is_coordinate(file: char, rank: char) -> bool {
    is_file(file) && is_rank(rank)
}

/// `text` without its last character, where that is a check or mate mark.
pub open spec fn without_effect(text: Seq<char>) -> Seq<char> {
    if text.len() > 0 && is_effect(text.last()) {
        text.drop_last()
    } else {
        text
    }
}

/// Castling on the king's side.
pub open spec fn short_castle() -> Seq<char> {
    seq!['O', '-', 'O']
}

/// Castling on the queen's side.
pub open spec fn long_castle() -> Seq<char> {
    seq!['O', '-', 'O', '-', 'O']
}

/// The shapes of a move in algebraic notation, the check mark left out.
pub open spec fn is_move_shape(body: Seq<char>) -> bool {
    // a pawn move: e4
    ||| body.len() == 2 && is_coordinate(body[0], body[1])
    // a piece move: Nf3
    ||| body.len() == 3 && is_piece(body[0]) && is_coordinate(body[1], body[2])
    ||| body == short_castle()
    // a capture: Nxe5, dxe5
    ||| body.len() == 4 && (is_piece(body[0]) || is_file(body[0])) && body[1] == 'x'
        && is_coordinate(body[2], body[3])
    // a promotion: e8=Q
    ||| body.len() == 4 && is_coordinate(body[0], body[1]) && body[2] == '=' && is_piece(body[3])
    // one of two pieces: Ndf6, R1e2
    ||| body.len() == 4 && is_specified_piece(body[0]) && (is_rank(body[1]) || is_file(body[1]))
        && is_coordinate(body[2], body[3])
    ||| body == long_castle()
    // a capture by one of two pieces: Raxd8
    ||| body.len() == 5 && is_specified_piece(body[0]) && (is_rank(body[1]) || is_file(body[1]))
        && body[2] == 'x' && is_coordinate(body[3], body[4])
    // a pawn that captures and promotes: bxc8=R
    ||| body.len() == 6 && is_file(body[0]) && body[1] == 'x' && is_coordinate(body[2], body[3])
        && body[4] == '=' && is_piece(body[5])
}

/// Whether `text` is a move in algebraic notation: one of the shapes, with
/// at most one check or mate mark behind it. Only the text is judged, not
/// whether the move can be played on any board.
pub open spec fn is_algebraic(text: Seq<char>) -> bool {
    is_move_shape(without_effect(text))
}

/// What is wrong with `symbol` where a file is expected.
pub open spec fn file_fault(symbol: char) -> Option<NotationFault> {
    if is_file(symbol) {
        None
    } else {
        Some(NotationFault::InvalidFile(symbol))
    }
}

/// What is wrong with `symbol` where a rank is expected.
pub open spec fn rank_fault(symbol: char) -> Option<NotationFault> {
    if is_rank(symbol) {
        None
    } else {
        Some(NotationFault::InvalidRank(symbol))
    }
}

/// What is wrong with `symbol` where a rank or a file is expected.
pub open spec fn rank_or_file_fault(symbol: char) -> Option<NotationFault> {
    if is_rank(symbol) || is_file(symbol) {
        None
    } else {
        Some(NotationFault::InvalidRankOrFile(symbol))
    }
}

/// What is wrong with `symbol` where the letter of a piece is expected.
pub open spec fn piece_fault(symbol: char) -> Option<NotationFault> {
    if is_piece(symbol) {
        None
    } else {
        Some(NotationFault::InvalidPiece(symbol))
    }
}

/// What is wrong with `symbol` where the letter of a piece or a file is
/// expected.
pub open spec fn piece_or_file_fault(symbol: char) -> Option<NotationFault> {
    if is_piece(symbol) || is_file(symbol) {
        None
    } else {
        Some(NotationFault::InvalidPieceOrFile(symbol))
    }
}

/// What is wrong with `symbol` where the capture mark is expected.
pub open spec fn takes_fault(symbol: char) -> Option<NotationFault> {
    if symbol == 'x' {
        None
    } else {
        Some(NotationFault::InvalidTakesSymbol(symbol))
    }
}

/// What is wrong with `symbol` where the promotion mark is expected.
pub open spec fn promotion_fault(symbol: char) -> Option<NotationFault> {
    if symbol == '=' {
        None
    } else {
        Some(NotationFault::InvalidPromotionSymbol(symbol))
    }
}

/// What is wrong with `symbol` where the letter of one of two pieces is
/// expected: it has to be a piece, and no king.
pub open spec fn specified_piece_fault(symbol: char) -> Option<NotationFault> {
    if !is_piece(symbol) {
        Some(NotationFault::InvalidPiece(symbol))
    } else if symbol == 'K' {
        Some(NotationFault::InvalidDisambiguation)
    } else {
        None
    }
}

/// The first of two faults: `first` where there is one, else `next`.
pub open spec fn before(first: Option<NotationFault>, next: Option<NotationFault>) -> Option<
    NotationFault,
> {
    if first is Some {
        first
    } else {
        next
    }
}

/// What is wrong with `file` and `rank` where a square is expected: the
/// file is looked at first.
pub open spec fn coordinate_fault(file: char, rank: char) -> Option<NotationFault> {
    before(file_fault(file), rank_fault(rank))
}

/// The fault that is reported of a text: the parts of a move are looked at
/// in a fixed order, and the first one that is wrong is named. `None` for a
/// text without fault.
pub open spec fn first_fault(text: Seq<char>) -> Option<NotationFault> {
    let body = without_effect(text);
    if text.len() == 0 {
        Some(NotationFault::EmptyInput)
    } else if body.len() <= 1 {
        Some(NotationFault::TooShort(text))
    } else if body.len() == 2 {
        coordinate_fault(body[0], body[1])
    } else if body.len() == 3 {
        if body == short_castle() {
            None
        } else {
            before(piece_fault(body[0]), coordinate_fault(body[1], body[2]))
        }
    } else if body.len() == 4 {
        if body[1] == 'x' {
            before(piece_or_file_fault(body[0]), coordinate_fault(body[2], body[3]))
        } else if body[2] == '=' {
            before(piece_fault(body[3]), coordinate_fault(body[0], body[1]))
        } else {
            before(
                rank_or_file_fault(body[1]),
                before(specified_piece_fault(body[0]), coordinate_fault(body[2], body[3])),
            )
        }
    } else if body.len() == 5 {
        if body == long_castle() {
            None
        } else {
            before(
                takes_fault(body[2]),
                before(
                    rank_or_file_fault(body[1]),
                    before(specified_piece_fault(body[0]), coordinate_fault(body[3], body[4])),
                ),
            )
        }
    } else if body.len() == 6 {
        before(
            piece_fault(body[5]),
            before(
                promotion_fault(body[4]),
                before(
                    takes_fault(body[1]),
                    before(file_fault(body[0]), coordinate_fault(body[2], body[3])),
                ),
            ),
        )
    } else {
        Some(NotationFault::TooLong(body))
    }
}

/// A text has a fault exactly if it is not a move in algebraic notation.
pub proof fn lemma_fault_free_iff_algebraic(text: Seq<char>)
    ensures
        first_fault(text) is None <==> is_algebraic(text),
{
    let body = without_effect(text);
    assert(body.len() == 3 && body[0] == 'O' && body[1] == '-' && body[2] == 'O' ==> body
        =~= short_castle());
    assert(body.len() == 5 && body[0] == 'O' && body[1] == '-' && body[2] == 'O' && body[3] == '-'
        && body[4] == 'O' ==> body =~= long_castle());
}

/// What holds of a fault that is reported: the text that it carries is as
/// short or as long as the fault says, and the character that it carries is
/// none of those that were expected.
pub open spec fn is_reportable(fault: NotationFault) -> bool {
    match fault {
        NotationFault::EmptyInput => true,
        NotationFault::TooShort(text) => 1 <= text.len() <= 2,
        NotationFault::TooLong(text) => text.len() >= 7,
        NotationFault::InvalidFile(symbol) => !is_file(symbol),
        NotationFault::InvalidRank(symbol) => !is_rank(symbol),
        NotationFault::InvalidRankOrFile(symbol) => !is_rank(symbol) && !is_file(symbol),
        NotationFault::InvalidPiece(symbol) => !is_piece(symbol),
        NotationFault::InvalidPieceOrFile(symbol) => !is_piece(symbol) && !is_file(symbol),
        NotationFault::InvalidTakesSymbol(symbol) => symbol != 'x',
        NotationFault::InvalidPromotionSymbol(symbol) => symbol != '=',
        NotationFault::InvalidDisambiguation => true,
    }
}

/// The fault of a text is one that can be reported.
pub proof fn lemma_first_fault_is_reportable(text: Seq<char>)
    ensures
        first_fault(text) matches Some(fault) ==> is_reportable(fault),
{
}

/// No two faults that can be reported have the same message: the message
/// tells which fault it is, and what the fault carries. (The message of a
/// king that was told apart from another is that of a piece letter `K` that
/// is none, but `K` is a piece letter.)
pub proof fn lemma_message_tells_fault(fault: NotationFault, other: NotationFault)
    requires
        is_reportable(fault),
        is_reportable(other),
        fault.message() == other.message(),
    ensures
        fault == other,
{
    reveal_strlit("Empty string");
    reveal_strlit("Move is too short: ");
    reveal_strlit("Move is too long: ");
    reveal_strlit("Invalid file: ");
    reveal_strlit("Invalid rank: ");
    reveal_strlit("Invalid rank/file: ");
    reveal_strlit("Invalid piece: ");
    reveal_strlit("Invalid piece/file: ");
    reveal_strlit("Invalid takes symbol: ");
    reveal_strlit("Invalid promotion symbol: ");
    reveal_strlit("Invalid piece: K");
    let message = fault.message();
    let same = other.message();
    assert(message.len() == same.len());
    assert(message[0] == same[0]);
    assert(message[8] == same[8]);
    assert(message.last() == same.last());
    if message[0] == 'M' {
        assert(message[12] == same[12]);
        assert(message.skip(18) == same.skip(18));
        assert(message.skip(19) == same.skip(19));
        match (fault, other) {
            (NotationFault::TooShort(text), NotationFault::TooShort(other_text)) => {
                assert(text =~= message.skip(19));
                assert(other_text =~= same.skip(19));
            },
            (NotationFault::TooLong(text), NotationFault::TooLong(other_text)) => {
                assert(text =~= message.skip(18));
                assert(other_text =~= same.skip(18));
            },
            _ => {},
        }
    }
}

/// The messages of two texts are the same only where their faults are.
pub proof fn lemma_message_tells_first_fault(text: Seq<char>, other: Seq<char>)
    requires
        first_fault(text) is Some,
        first_fault(other) is Some,
        first_fault(text)->0.message() == first_fault(other)->0.message(),
    ensures
        first_fault(text) == first_fault(other),
{
    lemma_first_fault_is_reportable(text);
    lemma_first_fault_is_reportable(other);
    lemma_message_tells_fault(first_fault(text)->0, first_fault(other)->0);
}

/// How a failed check is reported: `outcome` is an error exactly if there is
/// a fault, and then its message is that of the fault.
pub open spec fn reports(outcome: Result<(), SANError>, fault: Option<NotationFault>) -> bool {
    match fault {
        None => outcome is Ok,
        Some(fault) => outcome matches Err(error) && error@ == fault.message(),
    }
}

/// An interface for moves that can be converted from algebraic chess notation.
pub trait Move: Sized + Clone + PartialEq {
    /// The notation that the move stands for.
    spec fn notation(&self) -> Seq<char>;

    /// The texts that can be turned into a move.
    spec fn accepts(text: Seq<char>) -> bool;

    /// The message with which a text that cannot be turned into a move is
    /// refused.
    spec fn refusal(text: Seq<char>) -> Seq<char>;

    /// Returns `Ok(move)` if the given algebraic notation is valid, and `Err(san_error)` if it
    /// isn't.
    fn try_from_algebraic(algebraic: String) -> (res: Result<Self, SANError>)
        ensures
            res is Ok <==> Self::accepts(algebraic@),
            res matches Ok(chess_move) ==> chess_move.notation() == algebraic@,
            res matches Err(error) ==> error@ == Self::refusal(algebraic@),
    ;

    /// Returns a new move from the given algebraic notation, which has to be valid.
    fn from_algebraic(algebraic: String) -> (chess_move: Self)
        requires
            Self::accepts(algebraic@),
        ensures
            chess_move.notation() == algebraic@,
    {
        match Self::try_from_algebraic(algebraic) {
            Ok(chess_move) => chess_move,
            Err(_) => unreached(),
        }
    }

    /// Returns the algebraic notation represented by this move.
    fn to_algebraic(self) -> (algebraic: String)
        ensures
            algebraic@ == self.notation(),
    ;

    /// `==` holds of two moves exactly if they have the same notation.
    proof fn lemma_equal_by_notation(a: &Self, b: &Self)
        ensures
            Self::obeys_eq_spec(),
            a.eq_spec(b) <==> a.notation() == b.notation(),
    ;

    /// A clone of a move has the notation of the move.
    proof fn lemma_clone_keeps_notation(a: &Self, b: &Self)
        requires
            cloned(*a, *b),
        ensures
            b.notation() == a.notation(),
    ;
}

/// A simple way to represent chess moves by a string containing the moves in algebraic notation.
#[derive(Debug, Hash)]
pub struct AlgebraicMove(String);

impl View for AlgebraicMove {
    type V = Seq<char>;

    closed spec fn view(&self) -> Seq<char> {
        self.0@
    }
}

impl Clone for AlgebraicMove {
    fn clone(&self) -> (copy: Self)
        ensures
            copy@ == self@,
    {
        AlgebraicMove(self.0.clone())
    }
}

impl PartialEq for AlgebraicMove {
    fn eq(&self, other: &Self) -> (equal: bool) {
        self.0 == other.0
    }
}

impl Eq for AlgebraicMove {

}

/// Two moves are equal exactly if they have the same notation.
impl PartialEqSpecImpl for AlgebraicMove {
    open spec fn obeys_eq_spec() -> bool {
        true
    }

    open spec fn eq_spec(&self, other: &Self) -> bool {
        self@ == other@
    }
}

impl AlgebraicMove {
    fn is_effect(symbol: char) -> (found: bool)
        ensures
            found == is_effect(symbol),
    {
        symbol == '+' || symbol == '#'
    }

    fn is_coordinate(file: char, rank: char) -> (outcome: Result<(), SANError>)
        ensures
            reports(outcome, coordinate_fault(file, rank)),
    {
        AlgebraicMove::is_file(file)?;
        AlgebraicMove::is_rank(rank)?;

        Ok(())
    }

    fn is_file(file: char) -> (outcome: Result<(), SANError>)
        ensures
            reports(outcome, file_fault(file)),
    {
        if file < 'a' || file > 'h' {
            Err(SANError::naming("Invalid file: ", file))
        } else {
            Ok(())
        }
    }

    fn is_rank(rank: char) -> (outcome: Result<(), SANError>)
        ensures
            reports(outcome, rank_fault(rank)),
    {
        if rank < '1' || rank > '8' {
            Err(SANError::naming("Invalid rank: ", rank))
        } else {
            Ok(())
        }
    }

    fn is_rank_or_file(rank: char) -> (outcome: Result<(), SANError>)
        ensures
            reports(outcome, rank_or_file_fault(rank)),
    {
        let is_rank = AlgebraicMove::is_rank(rank).is_ok();
        let is_file = AlgebraicMove::is_file(rank).is_ok();

        if !is_rank && !is_file {
            Err(SANError::naming("Invalid rank/file: ", rank))
        } else {
            Ok(())
        }
    }

    fn is_piece(piece: char) -> (outcome: Result<(), SANError>)
        ensures
            reports(outcome, piece_fault(piece)),
    {
        if !(piece == 'N' || piece == 'B' || piece == 'R' || piece == 'Q' || piece == 'K') {
            Err(SANError::naming("Invalid piece: ", piece))
        } else {
            Ok(())
        }
    }

    fn is_piece_or_file(piece: char) -> (outcome: Result<(), SANError>)
        ensures
            reports(outcome, piece_or_file_fault(piece)),
    {
        let is_piece = AlgebraicMove::is_piece(piece).is_ok();
        let is_file = AlgebraicMove::is_file(piece).is_ok();

        if !is_piece && !is_file {
            Err(SANError::naming("Invalid piece/file: ", piece))
        } else {
            Ok(())
        }
    }

    fn is_takes(takes: char) -> (outcome: Result<(), SANError>)
        ensures
            reports(outcome, takes_fault(takes)),
    {
        if takes != 'x' {
            Err(SANError::naming("Invalid takes symbol: ", takes))
        } else {
            Ok(())
        }
    }

    fn is_specified_piece(piece: char) -> (outcome: Result<(), SANError>)
        ensures
            reports(outcome, specified_piece_fault(piece)),
    {
        AlgebraicMove::is_piece(piece)?;

        if piece == 'K' {
            // This would imply two or more kings, which is not allowed.
            Err(SANError::new(String::from_str("Invalid piece: K")))
        } else {
            Ok(())
        }
    }

    fn is_promotion(symbol: char) -> (outcome: Result<(), SANError>)
        ensures
            reports(outcome, promotion_fault(symbol)),
    {
        if symbol != '=' {
            Err(SANError::naming("Invalid promotion symbol: ", symbol))
        } else {
            Ok(())
        }
    }
}

impl Move for AlgebraicMove {
    open spec fn notation(&self) -> Seq<char> {
        self@
    }

    open spec fn accepts(text: Seq<char>) -> bool {
        is_algebraic(text)
    }

    open spec fn refusal(text: Seq<char>) -> Seq<char> {
        match first_fault(text) {
            Some(fault) => fault.message(),
            None => Seq::empty(),
        }
    }

    fn try_from_algebraic(algebraic: String) -> (res: Result<AlgebraicMove, SANError>)
        ensures
            match first_fault(algebraic@) {
                None => res matches Ok(chess_move) && chess_move@ == algebraic@,
                Some(fault) => res matches Err(error) && error@ == fault.message(),
            },
    {
        proof {
            lemma_fault_free_iff_algebraic(algebraic@);
            assert(first_fault(algebraic@) matches Some(fault) ==> Self::refusal(algebraic@)
                == fault.message());
        }
        let text = algebraic.as_str();
        let length = text.unicode_len();

        if length == 0 {
            return Err(SANError::new(String::from_str("Empty string")));
        }
        let move_length = if AlgebraicMove::is_effect(text.get_char(length - 1)) {
            length - 1
        } else {
            length
        };
        let ghost body = without_effect(algebraic@);

        if move_length == 0 || move_length == 1 {
            return Err(SANError::quoting("Move is too short: ", text));
        } else if move_length == 2 {
            // Should be a typical pawn move, so only a coordinate is specified.
            AlgebraicMove::is_coordinate(text.get_char(0), text.get_char(1))?;
        } else if move_length == 3 {
            // Unless its short castles, it should be a typical piece move, consisting of a
            // piece and coordinate.
            let first = text.get_char(0);
            let second = text.get_char(1);
            let third = text.get_char(2);

            if first == 'O' && second == '-' && third == 'O' {
                assert(body =~= short_castle());
            } else {
                AlgebraicMove::is_piece(first)?;
                AlgebraicMove::is_coordinate(second, third)?;
            }
        } else if move_length == 4 {
            let first = text.get_char(0);
            let second = text.get_char(1);
            let third = text.get_char(2);
            let fourth = text.get_char(3);

            // Three possible types of moves.
            if second == 'x' {
                // Typical capture.
                AlgebraicMove::is_piece_or_file(first)?;
                AlgebraicMove::is_coordinate(third, fourth)?;
            } else if third == '=' {
                // Typical promotion move.
                AlgebraicMove::is_piece(fourth)?;
                AlgebraicMove::is_coordinate(first, second)?;
            } else {
                // Move where two pieces can reach same square and a file/rank is specified.
                AlgebraicMove::is_rank_or_file(second)?;
                AlgebraicMove::is_specified_piece(first)?;
                AlgebraicMove::is_coordinate(third, fourth)?;
            }
        } else if move_length == 5 {
            let first = text.get_char(0);
            let second = text.get_char(1);
            let third = text.get_char(2);
            let fourth = text.get_char(3);
            let fifth = text.get_char(4);

            // Either long castles or a specifying capture move.
            if first == 'O' && second == '-' && third == 'O' && fourth == '-' && fifth == 'O' {
                assert(body =~= long_castle());
            } else {
                AlgebraicMove::is_takes(third)?;
                AlgebraicMove::is_rank_or_file(second)?;
                AlgebraicMove::is_specified_piece(first)?;
                AlgebraicMove::is_coordinate(fourth, fifth)?;
            }
        } else if move_length == 6 {
            // Only pawn captures that promote are possible.
            AlgebraicMove::is_piece(text.get_char(5))?;
            AlgebraicMove::is_promotion(text.get_char(4))?;
            AlgebraicMove::is_takes(text.get_char(1))?;
            AlgebraicMove::is_file(text.get_char(0))?;
            AlgebraicMove::is_coordinate(text.get_char(2), text.get_char(3))?;
        } else {
            let test_algebraic = text.substring_char(0, move_length);
            return Err(SANError::quoting("Move is too long: ", test_algebraic));
        }

        Ok(AlgebraicMove(algebraic))
    }

    fn to_algebraic(self) -> (algebraic: String) {
        self.0
    }

    proof fn lemma_equal_by_notation(a: &Self, b: &Self) {
    }

    proof fn lemma_clone_keeps_notation(a: &Self, b: &Self) {
    }
}

} // verus!
