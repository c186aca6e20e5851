//! Positions and the calls into `cozy_chess`.
//!
//! A position is held as FEN text: the text `cozy_chess` writes for it (or the
//! standard start position).  Whatever only `cozy_chess` can compute from such
//! a text (whether it reads as a position, the text it writes back, the legal
//! moves, the position after a move, the state of the game, the position
//! hash) is a call from text to plain values; its result is named by a spec
//! function over the text, so contracts can speak of it.  What depends on text
//! alone and is short to state (the form of a square, of a move in UCI
//! notation, the outline of a written FEN, the side to move) is stated.

use vstd::prelude::*;
use cozy_chess::{Board, GameStatus, Square};
use crate::text::{Separator, words, views, split_words, text_is};

verus! {

/// The two sides of a chess game.
#[derive(Clone, Copy, Debug, PartialEq, Eq, Structural)]
pub enum Side {
    White,
    Black,
}

/// Whether a game has ended, and how.
#[derive(Clone, Copy, Debug, PartialEq, Eq, Structural)]
pub enum Status {
    /// The side to move has been checkmated.
    Won,
    /// Stalemate or the fifty-move rule.
    Drawn,
    Ongoing,
}

/// A chess position, held as FEN text.
pub struct Position {
    pub fen: String,
}

/// The standard start position in FEN, as `cozy_chess` writes it.
pub open spec fn start_fen() -> Seq<char> {
    "rnbqkbnr/pppppppp/8/8/8/8/PPPPPPPP/RNBQKBNR w KQkq - 0 1"@
}

impl Position {
    /// The standard start position.
    pub fn startpos() -> (p: Position)
        ensures
            p.fen@ == start_fen(),
    {
        Position { fen: String::from_str("rnbqkbnr/pppppppp/8/8/8/8/PPPPPPPP/RNBQKBNR w KQkq - 0 1") }
    }
}

/// A file letter, `a` to `h`.
pub open spec fn is_file_char(c: char) -> bool {
    'a' <= c && c <= 'h'
}

/// A rank digit, `1` to `8`.
pub open spec fn is_rank_char(c: char) -> bool {
    '1' <= c && c <= '8'
}

/// A piece letter as `cozy_chess` reads it.
pub open spec fn is_piece_char(c: char) -> bool {
    c == 'p' || c == 'n' || c == 'b' || c == 'r' || c == 'q' || c == 'k'
}

/// The text of a square: a file letter followed by a rank digit.
pub open spec fn is_square_text(s: Seq<char>) -> bool {
    s.len() == 2 && is_file_char(s[0]) && is_rank_char(s[1])
}

/// The text of a move in UCI notation as `cozy_chess` reads it: two squares,
/// then, if a fifth character follows and it is ASCII, a piece letter; what
/// comes after the fifth character is not read.
pub open spec fn is_uci_move_text(s: Seq<char>) -> bool {
    &&& s.len() >= 4
    &&& is_square_text(s.subrange(0, 2))
    &&& is_square_text(s.subrange(2, 4))
    &&& (s.len() == 4 || (s[4] as u32) >= 128 || is_piece_char(s[4]))
}

/// The text of a move as `cozy_chess` writes it: the two squares, and a
/// piece letter when the move promotes.
pub open spec fn is_move_display(s: Seq<char>) -> bool {
    &&& (s.len() == 4 || s.len() == 5)
    &&& is_square_text(s.subrange(0, 2))
    &&& is_square_text(s.subrange(2, 4))
    &&& s.len() == 5 ==> is_piece_char(s[4])
}

/// The outline of a FEN as `cozy_chess` writes a position: six fields
/// separated by single spaces, the second `w` or `b` for the side to move.
pub open spec fn is_fen_outline(s: Seq<char>) -> bool {
    let w = words(s, Separator::Whitespace);
    &&& w.len() == 6
    &&& w[1] == seq!['w'] || w[1] == seq!['b']
}

/// The number of spaces in a text.
pub open spec fn space_count(s: Seq<char>) -> nat {
    s.filter(|c: char| c == ' ').len()
}

/// The side to move of a FEN: Black when its second field is `b`, else White.
pub open spec fn fen_side(fen: Seq<char>) -> Side {
    let w = words(fen, Separator::Whitespace);
    if w.len() > 1 && w[1] == seq!['b'] { Side::Black } else { Side::White }
}

/// The side to move of a position given as FEN (see `fen_side`).
pub fn side_to_move(fen: &str) -> (side: Side)
    ensures
        side == fen_side(fen@),
{
    proof {
        reveal_strlit("b");
        assert("b"@ =~= seq!['b']);
    }
    let w = split_words(fen, Separator::Whitespace);
    assert(views(w@) == words(fen@, Separator::Whitespace));
    if w.len() > 1 {
        assert(views(w@)[1] == w@[1]@);
        if text_is(w[1].as_str(), "b") {
            return Side::Black;
        }
    }
    Side::White
}

// ---------------------------------------------------------------------------
// Names for what `cozy_chess` computes from a FEN
// ---------------------------------------------------------------------------

/// Whether `cozy_chess` reads a text as a position (FEN or Shredder FEN).
pub uninterp spec fn fen_accepted(fen: Seq<char>) -> bool;

/// The FEN `cozy_chess` writes for the position it reads from a text.
pub uninterp spec fn written_fen(fen: Seq<char>) -> Seq<char>;

/// The FEN `cozy_chess` writes after the move read from `text` is played on
/// the position read from `fen`, when both read and the move is legal.
pub uninterp spec fn fen_after_move(fen: Seq<char>, text: Seq<char>) -> Option<Seq<char>>;

/// The legal moves of the position read from `fen`, in UCI notation, in the
/// order in which `cozy_chess` generates them.
pub uninterp spec fn legal_move_texts(fen: Seq<char>) -> Seq<Seq<char>>;

/// The state of the game in the position read from `fen`.
pub uninterp spec fn position_status(fen: Seq<char>) -> Option<Status>;

/// The hash of the position read from `fen`.
pub uninterp spec fn position_hash(fen: Seq<char>) -> Option<u64>;

/// The moves of a list, in UCI notation, that start from the square
/// `square`, in the order of the list.
pub open spec fn moves_from(moves: Seq<Seq<char>>, square: Seq<char>) -> Seq<Seq<char>> {
    moves.filter(starts_from(square))
}

/// A move in UCI notation starts from the square `square`.
pub open spec fn starts_from(square: Seq<char>) -> spec_fn(Seq<char>) -> bool {
    |t: Seq<char>| t.subrange(0, 2) == square
}

/// Law: the moves listed from the squares are the moves of the list: each
/// move of the list is listed from the square it starts from, and each move
/// listed from a square is in the list and starts from it.
pub proof fn lemma_moves_from_cover(moves: Seq<Seq<char>>, t: Seq<char>, square: Seq<char>)
    ensures
        moves.contains(t) ==> moves_from(moves, t.subrange(0, 2)).contains(t),
        moves_from(moves, square).contains(t) ==> moves.contains(t) && t.subrange(0, 2) == square,
{
    if moves.contains(t) {
        let i = choose|i: int| 0 <= i < moves.len() && moves[i] == t;
        moves.lemma_filter_contains(starts_from(t.subrange(0, 2)), i);
    }
    if moves_from(moves, square).contains(t) {
        moves.lemma_filter_contains_rev(starts_from(square), t);
        let f = moves.filter(starts_from(square));
        let j = choose|j: int| 0 <= j < f.len() && f[j] == t;
        moves.lemma_filter_pred(starts_from(square), j);
    }
}

/// The view of an optional string.
pub open spec fn opt_view(s: Option<String>) -> Option<Seq<char>> {
    match s {
        Some(t) => Some(t@),
        None => None,
    }
}

/// Reads a position through `<Board as FromStr>::from_str` and writes it back
/// through `Board`'s `Display`.  The result is present exactly when the text
/// reads (`fen_accepted`), which depends on the text alone; its source splits
/// the text at single spaces and refuses it unless there are exactly six
/// fields, that is five spaces, which is stated; what else it checks is left
/// to the name.  The text written is named (`written_fen`); its source writes
/// six fields (placement, side to move as `w` or `b`, castling rights, en
/// passant square, halfmove clock, fullmove number) separated by single
/// spaces, and that outline is stated.
#[verifier::external_body]
pub fn normalize_fen(fen: &str) -> (written: Option<String>)
    ensures
        written is Some <==> fen_accepted(fen@),
        written is Some ==> space_count(fen@) == 5,
        written matches Some(w) ==> w@ == written_fen(fen@) && is_fen_outline(w@),
{
    fen.parse::<Board>().ok().map(|board| board.to_string())
}

/// Plays a move given in UCI notation on a position given as FEN: reads the
/// position (`Board::from_str`), reads the move (`util::parse_uci_move`),
/// plays it through `Board::try_play` and writes the position after it.  The
/// result is named (`fen_after_move`); it is absent when the position does
/// not read, when the move text does not read (its source fails only where
/// `Move::from_str` fails, which is stated), or when the move is illegal.
#[verifier::external_body]
pub fn play_move_on_fen(fen: &str, text: &str) -> (after: Option<String>)
    ensures
        opt_view(after) == fen_after_move(fen@, text@),
        after is Some ==> fen_accepted(fen@) && is_uci_move_text(text@),
        after matches Some(a) ==> is_fen_outline(a@),
{
    let mut board = fen.parse::<Board>().ok()?;
    let mv = cozy_chess::util::parse_uci_move(&board, text).ok()?;
    board.try_play(mv).ok()?;
    Some(board.to_string())
}

/// The legal moves of a position given as FEN, from `Board::generate_moves`,
/// each written by `util::display_uci_move` (the from square, the to square,
/// and a piece letter for a promotion, castling as the king's two-square
/// step).  The list is named (`legal_move_texts`); it is empty when the text
/// does not read.
#[verifier::external_body]
pub fn fen_legal_moves(fen: &str) -> (texts: Vec<String>)
    ensures
        views(texts@) == legal_move_texts(fen@),
        forall|i: int| 0 <= i < texts@.len() ==> is_move_display(#[trigger] texts@[i]@),
        !fen_accepted(fen@) ==> texts@.len() == 0,
{
    let board = match fen.parse::<Board>() {
        Ok(board) => board,
        Err(_) => return Vec::new(),
    };
    let mut moves = Vec::new();
    board.generate_moves(|piece_moves| {
        moves.extend(piece_moves);
        false
    });
    moves.into_iter().map(|mv| cozy_chess::util::display_uci_move(&board, mv).to_string()).collect()
}

/// The legal moves of the piece on one square of a position given as FEN,
/// from `Board::generate_moves_for` with that square's mask, each written by
/// `util::display_uci_move`.  Its source generates all legal moves as
/// `generate_moves_for` with the full mask, and the mask only selects the
/// squares moved from, so these are the legal moves (as `fen_legal_moves`
/// lists them) whose text starts with the square, in the same order.  The
/// list is empty when the position or the square (`Square::from_str`) does
/// not read.
#[verifier::external_body]
pub fn fen_square_moves(fen: &str, square: &str) -> (texts: Vec<String>)
    ensures
        fen_accepted(fen@) && is_square_text(square@)
            ==> views(texts@) == moves_from(legal_move_texts(fen@), square@),
        !fen_accepted(fen@) || !is_square_text(square@) ==> texts@.len() == 0,
{
    let (board, sq) = match (fen.parse::<Board>(), square.parse::<Square>()) {
        (Ok(board), Ok(sq)) => (board, sq),
        _ => return Vec::new(),
    };
    let mut moves = Vec::new();
    board.generate_moves_for(sq.bitboard(), |piece_moves| {
        moves.extend(piece_moves);
        false
    });
    moves.into_iter().map(|mv| cozy_chess::util::display_uci_move(&board, mv).to_string()).collect()
}

/// The state of the game in a position given as FEN, from `Board::status`:
/// absent when the text does not read.  Its source answers `Ongoing` only
/// when a legal move exists, and `Won` or `Drawn` only when none does or the
/// halfmove clock has reached 100; the first of these is stated.
#[verifier::external_body]
pub fn fen_status(fen: &str) -> (status: Option<Status>)
    ensures
        status == position_status(fen@),
        status is Some <==> fen_accepted(fen@),
        status == Some(Status::Ongoing) ==> legal_move_texts(fen@).len() > 0,
{
    match fen.parse::<Board>().ok()?.status() {
        GameStatus::Won => Some(Status::Won),
        GameStatus::Drawn => Some(Status::Drawn),
        GameStatus::Ongoing => Some(Status::Ongoing),
    }
}

/// The hash of a position given as FEN, from `Board::hash`: absent when the
/// text does not read.
#[verifier::external_body]
pub fn fen_hash(fen: &str) -> (hash: Option<u64>)
    ensures
        hash == position_hash(fen@),
        hash is Some <==> fen_accepted(fen@),
{
    fen.parse::<Board>().ok().map(|board| board.hash())
}

} // verus!
