//! Board model and game state: squares, pieces, coordinates, and the `Game`
//! value that owns the board, the move history and the derived state.

use vstd::prelude::*;

use crate::moves;
use crate::moves::{Action, ActionType};

verus! {

use vstd::array::ArrayAdditionalExecFns;

/// The two sides of the game.
#[derive(Debug, Copy, Clone, PartialEq, Eq, Structural)]
pub enum Team {
    White,
    Black,
}

/// The six piece ranks.
#[derive(Debug, Copy, Clone, PartialEq, Eq, Structural)]
pub enum Rank {
    Pawn,
    Rook,
    Knight,
    Bishop,
    Queen,
    King,
}

/// The state derived after every performed action.
#[derive(Debug, Copy, Clone, PartialEq, Eq, Structural)]
pub enum GameState {
    Active,
    Check,
    Checkmate,
    Stalemate,
    FiftyRule,
}

/// A piece: a rank belonging to a team.
#[derive(Debug, Copy, Clone, PartialEq)]
pub struct Piece {
    pub team: Team,
    pub rank: Rank,
}

/// One square of the board: a fixed coordinate and an optional occupant.
#[derive(Debug, Copy, Clone, PartialEq)]
pub struct Square {
    pub piece: Option<Piece>,
    pub coordinate: (isize, isize),
}

/// True when `(x, y)` lies on the 8x8 board.
pub open spec fn in_bounds_xy(x: int, y: int) -> bool {
    0 <= x < 8 && 0 <= y < 8
}

/// The square of matrix `m` at file `x`, rank index `y`.
pub open spec fn board_sq(m: [[Square; 8]; 8], x: int, y: int) -> Square
    recommends
        in_bounds_xy(x, y),
{
    m@[x]@[y]
}

/// Whether a coordinate pair lies on the board.
pub fn not_out_of_bounds(x: isize, y: isize) -> (r: bool)
    ensures
        r == in_bounds_xy(x as int, y as int),
{
    !(x < 0 || x > 7 || y < 0 || y > 7)
}

/// The opposing team.
pub open spec fn spec_next_player(team: Team) -> Team {
    match team {
        Team::White => Team::Black,
        Team::Black => Team::White,
    }
}

pub fn next_player(team: Team) -> (r: Team)
    ensures
        r == spec_next_player(team),
{
    if team == Team::White {
        Team::Black
    } else {
        Team::White
    }
}

/// True when the square holds a piece of the other team.
pub open spec fn spec_not_same_team(team: Team, square: Square) -> bool {
    match square.piece {
        Some(p) => p.team != team,
        None => false,
    }
}

pub fn not_same_team(team: Team, square: Square) -> (r: bool)
    ensures
        r == spec_not_same_team(team, square),
{
    match square.piece {
        Some(p) => p.team != team,
        None => false,
    }
}

/// The file index named by a letter `a`-`h` (either case), if any.
pub open spec fn spec_file_index(c: char) -> Option<isize> {
    if c == 'a' || c == 'A' {
        Some(0isize)
    } else if c == 'b' || c == 'B' {
        Some(1isize)
    } else if c == 'c' || c == 'C' {
        Some(2isize)
    } else if c == 'd' || c == 'D' {
        Some(3isize)
    } else if c == 'e' || c == 'E' {
        Some(4isize)
    } else if c == 'f' || c == 'F' {
        Some(5isize)
    } else if c == 'g' || c == 'G' {
        Some(6isize)
    } else if c == 'h' || c == 'H' {
        Some(7isize)
    } else {
        None
    }
}

/// The numeric value of a decimal digit character, if any.
pub open spec fn spec_digit_value(c: char) -> Option<isize> {
    if c == '0' {
        Some(0isize)
    } else if c == '1' {
        Some(1isize)
    } else if c == '2' {
        Some(2isize)
    } else if c == '3' {
        Some(3isize)
    } else if c == '4' {
        Some(4isize)
    } else if c == '5' {
        Some(5isize)
    } else if c == '6' {
        Some(6isize)
    } else if c == '7' {
        Some(7isize)
    } else if c == '8' {
        Some(8isize)
    } else if c == '9' {
        Some(9isize)
    } else {
        None
    }
}

/// The lower-case letter of a file index in 0..8.
pub open spec fn spec_file_char(x: int) -> char
    recommends
        0 <= x < 8,
{
    if x == 0 {
        'a'
    } else if x == 1 {
        'b'
    } else if x == 2 {
        'c'
    } else if x == 3 {
        'd'
    } else if x == 4 {
        'e'
    } else if x == 5 {
        'f'
    } else if x == 6 {
        'g'
    } else {
        'h'
    }
}

/// The digit character of a rank index in 0..8 (rank 0 prints as `1`).
pub open spec fn spec_rank_char(y: int) -> char
    recommends
        0 <= y < 8,
{
    if y == 0 {
        '1'
    } else if y == 1 {
        '2'
    } else if y == 2 {
        '3'
    } else if y == 3 {
        '4'
    } else if y == 4 {
        '5'
    } else if y == 5 {
        '6'
    } else if y == 6 {
        '7'
    } else {
        '8'
    }
}

/// The text form of a coordinate: its file letter followed by its rank digit.
pub open spec fn spec_coord_to_text(c: (isize, isize)) -> Seq<char>
    recommends
        in_bounds_xy(c.0 as int, c.1 as int),
{
    seq![spec_file_char(c.0 as int), spec_rank_char(c.1 as int)]
}

/// The coordinate named by a two-character text form, if the text is a file
/// letter `a`-`h` (either case) followed by a rank digit `1`-`8`.
pub open spec fn spec_coord_from_text(s: Seq<char>) -> Option<(isize, isize)> {
    if s.len() == 2 {
        match (spec_file_index(s[0]), spec_digit_value(s[1])) {
            (Some(x), Some(d)) => if 1 <= d <= 8 {
                Some((x, (d - 1) as isize))
            } else {
                None
            },
            _ => None,
        }
    } else {
        None
    }
}

/// Every valid coordinate survives a round trip through its text form, and
/// every text form that parses comes back to an equivalent text: the two
/// conversions are mutual inverses over the valid coordinates.
pub proof fn lemma_coordinate_text_mutual_inverse(c: (isize, isize), s: Seq<char>)
    ensures
        in_bounds_xy(c.0 as int, c.1 as int) ==> spec_coord_from_text(spec_coord_to_text(c))
            == Some(c),
        spec_coord_from_text(s) == Some(c) ==> in_bounds_xy(c.0 as int, c.1 as int)
            && spec_coord_to_text(c)[1] == s[1] && spec_file_index(spec_coord_to_text(c)[0])
            == spec_file_index(s[0]),
{
}

/// Parses a coordinate such as `e4`: a file letter `a`-`h` (either case)
/// followed by a rank digit `1`-`8`.  Reports which part of the text is out
/// of shape when it does not parse.
pub fn coordinate_from_string(letter_coordinate: &str) -> (r: Result<(isize, isize), String>)
    ensures
        match r {
            Ok(c) => spec_coord_from_text(letter_coordinate@) == Some(c) && in_bounds_xy(
                c.0 as int,
                c.1 as int,
            ),
            Err(e) => spec_coord_from_text(letter_coordinate@) is None && e@ == (
            if letter_coordinate@.len() != 2 {
                "Coordinate wasnt in correct format"@
            } else if spec_digit_value(letter_coordinate@[1]) is None {
                "row digit wasnt in correct format"@
            } else if spec_file_index(letter_coordinate@[0]) is None {
                "first letter doesnt correspond to a column"@
            } else {
                "Row index out of bounds"@
            }),
        },
{
    if letter_coordinate.unicode_len() != 2 {
        return Err(String::from_str("Coordinate wasnt in correct format"));
    }
    let column_letter = letter_coordinate.get_char(0);
    let row_digit = letter_coordinate.get_char(1);
    let row = match digit_value(row_digit) {
        Some(d) => d,
        None => {
            return Err(String::from_str("row digit wasnt in correct format"));
        },
    };
    let column = match file_index(column_letter) {
        Some(x) => x,
        None => {
            return Err(String::from_str("first letter doesnt correspond to a column"));
        },
    };
    if row < 1 || row > 8 {
        return Err(String::from_str("Row index out of bounds"));
    }
    Ok((column, row - 1))
}

/// The file index of a letter `a`-`h`, accepting either case.
pub fn file_index(c: char) -> (r: Option<isize>)
    ensures
        r == spec_file_index(c),
{
    if c == 'a' || c == 'A' {
        Some(0)
    } else if c == 'b' || c == 'B' {
        Some(1)
    } else if c == 'c' || c == 'C' {
        Some(2)
    } else if c == 'd' || c == 'D' {
        Some(3)
    } else if c == 'e' || c == 'E' {
        Some(4)
    } else if c == 'f' || c == 'F' {
        Some(5)
    } else if c == 'g' || c == 'G' {
        Some(6)
    } else if c == 'h' || c == 'H' {
        Some(7)
    } else {
        None
    }
}

/// The numeric value of a decimal digit character.
pub fn digit_value(c: char) -> (r: Option<isize>)
    ensures
        r == spec_digit_value(c),
{
    if c == '0' {
        Some(0)
    } else if c == '1' {
        Some(1)
    } else if c == '2' {
        Some(2)
    } else if c == '3' {
        Some(3)
    } else if c == '4' {
        Some(4)
    } else if c == '5' {
        Some(5)
    } else if c == '6' {
        Some(6)
    } else if c == '7' {
        Some(7)
    } else if c == '8' {
        Some(8)
    } else if c == '9' {
        Some(9)
    } else {
        None
    }
}

/// Prints a coordinate in its text form, file letter first.
pub fn coordinate_to_string(coordinate: (isize, isize)) -> (r: String)
    requires
        in_bounds_xy(coordinate.0 as int, coordinate.1 as int),
    ensures
        r@ == spec_coord_to_text(coordinate),
{
    let column_letter = if coordinate.0 == 0 {
        proof {
            reveal_strlit("a");
        }
        "a"
    } else if coordinate.0 == 1 {
        proof {
            reveal_strlit("b");
        }
        "b"
    } else if coordinate.0 == 2 {
        proof {
            reveal_strlit("c");
        }
        "c"
    } else if coordinate.0 == 3 {
        proof {
            reveal_strlit("d");
        }
        "d"
    } else if coordinate.0 == 4 {
        proof {
            reveal_strlit("e");
        }
        "e"
    } else if coordinate.0 == 5 {
        proof {
            reveal_strlit("f");
        }
        "f"
    } else if coordinate.0 == 6 {
        proof {
            reveal_strlit("g");
        }
        "g"
    } else {
        proof {
            reveal_strlit("h");
        }
        "h"
    };
    let row_letter = if coordinate.1 == 0 {
        proof {
            reveal_strlit("1");
        }
        "1"
    } else if coordinate.1 == 1 {
        proof {
            reveal_strlit("2");
        }
        "2"
    } else if coordinate.1 == 2 {
        proof {
            reveal_strlit("3");
        }
        "3"
    } else if coordinate.1 == 3 {
        proof {
            reveal_strlit("4");
        }
        "4"
    } else if coordinate.1 == 4 {
        proof {
            reveal_strlit("5");
        }
        "5"
    } else if coordinate.1 == 5 {
        proof {
            reveal_strlit("6");
        }
        "6"
    } else if coordinate.1 == 6 {
        proof {
            reveal_strlit("7");
        }
        "7"
    } else {
        proof {
            reveal_strlit("8");
        }
        "8"
    };
    let text = String::from_str(column_letter).concat(row_letter);
    proof {
        assert(text@ =~= spec_coord_to_text(coordinate));
    }
    text
}

/// The game root: the board, the side to move, the full action history, the
/// cached king locations, the half-move counter for the draw rule, and the
/// state derived after the latest action.
#[derive(Debug)]
#[verifier::ext_equal]
pub struct Game {
    pub gamestate: GameState,
    pub matrix: [[Square; 8]; 8],
    pub player: Team,
    pub history: Vec<Action>,
    pub white_king_square: Square,
    pub black_king_square: Square,
    pub fifty_turn: i32,
}

/// Every square of the matrix carries its own coordinate.
pub open spec fn matrix_wf(m: [[Square; 8]; 8]) -> bool {
    forall|x: int, y: int|
        in_bounds_xy(x, y) ==> (#[trigger] m@[x]@[y]).coordinate == (x as isize, y as isize)
}

impl Game {
    /// Structural well-formedness: every square carries its own coordinate,
    /// both king caches point onto the board, and the draw counter is in
    /// range.
    pub open spec fn wf(self) -> bool {
        &&& matrix_wf(self.matrix)
        &&& in_bounds_xy(
            self.white_king_square.coordinate.0 as int,
            self.white_king_square.coordinate.1 as int,
        )
        &&& in_bounds_xy(
            self.black_king_square.coordinate.0 as int,
            self.black_king_square.coordinate.1 as int,
        )
        &&& 0 <= self.fifty_turn <= 100
    }

    /// The cached square of `team`'s king.
    pub open spec fn spec_king_square(self, team: Team) -> Square {
        match team {
            Team::White => self.white_king_square,
            Team::Black => self.black_king_square,
        }
    }

    /// Whether a piece on `from_square` has never moved.  A pawn is judged by
    /// its coordinate (it can only ever stand on its starting rank before its
    /// first move); any other piece is judged by the history: no performed
    /// action originated from its square.
    pub open spec fn spec_unmoved(self, from_square: Square) -> bool
        recommends
            from_square.piece is Some,
    {
        match from_square.piece {
            Some(p) => match p.rank {
                Rank::Pawn => match p.team {
                    Team::White => from_square.coordinate.1 == 1,
                    Team::Black => from_square.coordinate.1 == 6,
                },
                _ => forall|i: int|
                    0 <= i < self.history@.len() ==> (#[trigger] self.history@[i]).from.coordinate
                        != from_square.coordinate,
            },
            None => false,
        }
    }

    /// Derives the "never moved" status of the piece on `from_square` from
    /// the pawn's coordinate or from the move history.
    #[verifier::loop_isolation(false)]
    pub fn unmoved(&self, from_square: Square) -> (r: bool)
        requires
            from_square.piece is Some,
        ensures
            r == self.spec_unmoved(from_square),
    {
        let piece = match from_square.piece {
            Some(p) => p,
            None => {
                return false;
            },
        };
        match piece.rank {
            Rank::Pawn => match piece.team {
                Team::White => from_square.coordinate.1 == 1,
                Team::Black => from_square.coordinate.1 == 6,
            },
            _ => {
                let mut i: usize = 0;
                while i < self.history.len()
                    invariant
                        0 <= i <= self.history@.len(),
                        forall|j: int|
                            0 <= j < i ==> (#[trigger] self.history@[j]).from.coordinate
                                != from_square.coordinate,
                    decreases self.history@.len() - i,
                {
                    let past = self.history[i];
                    if past.from.coordinate.0 == from_square.coordinate.0
                        && past.from.coordinate.1 == from_square.coordinate.1 {
                        proof {
                            assert(past.from.coordinate =~= from_square.coordinate);
                            assert(!self.spec_unmoved(from_square));
                        }
                        return false;
                    }
                    i += 1;
                }
                true
            },
        }
    }

    /// The board square named by a textual coordinate, as a snapshot holding
    /// that square's current occupant.
    pub fn square_from_string(&self, letter_coordinate: &str) -> (r: Result<Square, String>)
        requires
            self.wf(),
        ensures
            match r {
                Ok(sq) => {
                    &&& spec_coord_from_text(letter_coordinate@) == Some(sq.coordinate)
                    &&& sq == board_sq(
                        self.matrix,
                        sq.coordinate.0 as int,
                        sq.coordinate.1 as int,
                    )
                },
                Err(e) => spec_coord_from_text(letter_coordinate@) is None && e@ == (
                if letter_coordinate@.len() != 2 {
                    "Coordinate wasnt in correct format"@
                } else if spec_digit_value(letter_coordinate@[1]) is None {
                    "row digit wasnt in correct format"@
                } else if spec_file_index(letter_coordinate@[0]) is None {
                    "first letter doesnt correspond to a column"@
                } else {
                    "Row index out of bounds"@
                }),
            },
    {
        let coordinate = match coordinate_from_string(letter_coordinate) {
            Err(e) => {
                return Err(e);
            },
            Ok(c) => c,
        };
        let square = Square {
            coordinate,
            piece: self.matrix[coordinate.0 as usize][coordinate.1 as usize].piece,
        };
        Ok(square)
    }

    /// The text form of a square's coordinate.
    pub fn square_to_string(&self, square: Square) -> (r: String)
        requires
            in_bounds_xy(square.coordinate.0 as int, square.coordinate.1 as int),
        ensures
            r@ == spec_coord_to_text(square.coordinate),
    {
        coordinate_to_string(square.coordinate)
    }

    /// Associated form of [`coordinate_to_string`].
    pub fn coordinate_to_string(coordinate: (isize, isize)) -> (r: String)
        requires
            in_bounds_xy(coordinate.0 as int, coordinate.1 as int),
        ensures
            r@ == spec_coord_to_text(coordinate),
    {
        coordinate_to_string(coordinate)
    }

    /// Associated form of [`coordinate_from_string`].
    pub fn coordinate_from_string(letter_coordinate: &str) -> (r: Result<(isize, isize), String>)
        ensures
            match r {
                Ok(c) => spec_coord_from_text(letter_coordinate@) == Some(c) && in_bounds_xy(
                    c.0 as int,
                    c.1 as int,
                ),
                Err(_) => spec_coord_from_text(letter_coordinate@) is None,
            },
    {
        coordinate_from_string(letter_coordinate)
    }
}

/// The board with the piece on `(x, y)` replaced; the square's coordinate is
/// untouched.
pub open spec fn upd_piece(m: [[Square; 8]; 8], x: int, y: int, p: Option<Piece>) -> [[Square; 8]; 8]
    recommends
        in_bounds_xy(x, y),
{
    vstd::array::spec_array_update(
        m,
        x,
        vstd::array::spec_array_update(
            m@[x],
            y,
            Square { piece: p, coordinate: board_sq(m, x, y).coordinate },
        ),
    )
}

/// Reading a square of an updated board: the updated square carries the new
/// piece under its old coordinate, every other square is unchanged.
pub proof fn lemma_upd_piece(
    m: [[Square; 8]; 8],
    x: int,
    y: int,
    p: Option<Piece>,
    i: int,
    j: int,
)
    requires
        in_bounds_xy(x, y),
        in_bounds_xy(i, j),
    ensures
        board_sq(upd_piece(m, x, y, p), i, j) == (if i == x && j == y {
            Square { piece: p, coordinate: board_sq(m, x, y).coordinate }
        } else {
            board_sq(m, i, j)
        }),
{
    broadcast use vstd::array::group_array_axioms;

    let row = vstd::array::spec_array_update(
        m@[x],
        y,
        Square { piece: p, coordinate: board_sq(m, x, y).coordinate },
    );
    assert(upd_piece(m, x, y, p)@ == m@.update(x, row));
    assert(row@ == m@[x]@.update(y, Square { piece: p, coordinate: board_sq(m, x, y).coordinate }));
}

/// Updating one square moves no coordinate.
pub proof fn lemma_upd_piece_keeps_coords(m: [[Square; 8]; 8], x: int, y: int, p: Option<Piece>)
    requires
        in_bounds_xy(x, y),
    ensures
        forall|i: int, j: int|
            in_bounds_xy(i, j) ==> (#[trigger] board_sq(upd_piece(m, x, y, p), i, j)).coordinate
                == board_sq(m, i, j).coordinate,
{
    assert forall|i: int, j: int|
        in_bounds_xy(i, j) implies (#[trigger] board_sq(upd_piece(m, x, y, p), i, j)).coordinate
        == board_sq(m, i, j).coordinate by {
        lemma_upd_piece(m, x, y, p, i, j);
    }
}

/// A structurally possible action: its endpoints are on the board and its
/// kind-specific geometry holds, so that performing it touches only valid,
/// distinct squares.  Every generated action satisfies this.
pub open spec fn spec_action_sane(g: Game, a: Action) -> bool {
    let fx = a.from.coordinate.0 as int;
    let fy = a.from.coordinate.1 as int;
    let tx = a.to.coordinate.0 as int;
    let ty = a.to.coordinate.1 as int;
    &&& in_bounds_xy(fx, fy)
    &&& in_bounds_xy(tx, ty)
    &&& match a.action_type {
        ActionType::Regular => !(fx == tx && fy == ty),
        ActionType::Promotion => !(fx == tx && fy == ty),
        ActionType::Enpassant => fx != tx && in_bounds_xy(tx, ty - moves::spec_team_dir(g.player)),
        ActionType::Castling => fy == ty && ((tx == fx + 2 && tx < 7) || (tx == fx - 2 && tx > 0)),
    }
}

/// The board after performing an action for `player`: the moving piece is
/// read off the origin and placed on the destination; en passant clears the
/// square the captured pawn stands on; castling also moves the rook in from
/// its corner.
pub open spec fn spec_matrix_after(m: [[Square; 8]; 8], player: Team, a: Action) -> [[Square; 8]; 8] {
    let fx = a.from.coordinate.0 as int;
    let fy = a.from.coordinate.1 as int;
    let tx = a.to.coordinate.0 as int;
    let ty = a.to.coordinate.1 as int;
    let moving = board_sq(m, fx, fy).piece;
    match a.action_type {
        ActionType::Regular => upd_piece(upd_piece(m, tx, ty, moving), fx, fy, None),
        ActionType::Promotion => upd_piece(upd_piece(m, tx, ty, moving), fx, fy, None),
        ActionType::Enpassant => upd_piece(
            upd_piece(upd_piece(m, tx, ty, moving), fx, fy, None),
            tx,
            ty - moves::spec_team_dir(player),
            None,
        ),
        ActionType::Castling => if tx > fx {
            let rook = board_sq(m, 7, fy).piece;
            upd_piece(
                upd_piece(upd_piece(upd_piece(m, tx, ty, moving), fx, fy, None), fx + 1, fy, rook),
                7,
                fy,
                None,
            )
        } else {
            let rook = board_sq(m, 0, fy).piece;
            upd_piece(
                upd_piece(upd_piece(upd_piece(m, tx, ty, moving), fx, fy, None), fx - 1, fy, rook),
                0,
                fy,
                None,
            )
        },
    }
}

/// The mover's king cache after an action: a regular king move caches the
/// destination's pre-move snapshot, castling caches the king's landing square
/// as it stands after the move, anything else leaves the cache alone.
pub open spec fn spec_king_after(
    m: [[Square; 8]; 8],
    player: Team,
    old_cache: Square,
    a: Action,
) -> Square {
    let tx = a.to.coordinate.0 as int;
    let ty = a.to.coordinate.1 as int;
    match a.action_type {
        ActionType::Regular => if a.from.piece matches Some(p) && p.rank == Rank::King {
            board_sq(m, tx, ty)
        } else {
            old_cache
        },
        ActionType::Castling => board_sq(spec_matrix_after(m, player, a), tx, ty),
        _ => old_cache,
    }
}

/// The whole game value after the board mutation of one action: the matrix
/// and the mover's king cache change, everything else (player, history,
/// counters) is left for the caller to advance.
pub open spec fn spec_game_after(g: Game, a: Action) -> Game {
    let m2 = spec_matrix_after(g.matrix, g.player, a);
    let k2 = spec_king_after(g.matrix, g.player, g.spec_king_square(g.player), a);
    Game {
        matrix: m2,
        white_king_square: if g.player == Team::White {
            k2
        } else {
            g.white_king_square
        },
        black_king_square: if g.player == Team::Black {
            k2
        } else {
            g.black_king_square
        },
        ..g
    }
}

/// Whether performing the action would leave the mover's own king on an
/// attacked square: the condition the legality filter rejects.
pub open spec fn spec_in_check_after(g: Game, a: Action) -> bool {
    let after = spec_game_after(g, a);
    moves::spec_square_attacked(after.matrix, g.player, after.spec_king_square(g.player))
}

impl Game {
    /// The square at `(x, y)`.
    pub fn square_at(&self, x: usize, y: usize) -> (sq: Square)
        requires
            x < 8,
            y < 8,
        ensures
            sq == board_sq(self.matrix, x as int, y as int),
    {
        self.matrix[x][y]
    }

    /// Replaces the occupant of `(x, y)`, leaving the square's coordinate and
    /// every other part of the game untouched.
    pub fn set_piece(&mut self, x: usize, y: usize, p: Option<Piece>)
        requires
            x < 8,
            y < 8,
        ensures
            *final(self) == (Game {
                matrix: upd_piece(old(self).matrix, x as int, y as int, p),
                ..*old(self)
            }),
    {
        let mut row: [Square; 8] = self.matrix[x];
        let kept_coordinate = row[y].coordinate;
        row[y] = Square { piece: p, coordinate: kept_coordinate };
        self.matrix[x] = row;
        proof {
            broadcast use vstd::array::group_array_axioms;

            let spec_row = vstd::array::spec_array_update(
                old(self).matrix@[x as int],
                y as int,
                Square {
                    piece: p,
                    coordinate: board_sq(old(self).matrix, x as int, y as int).coordinate,
                },
            );
            assert(row@ =~= spec_row@);
            assert(row =~= spec_row);
            assert(self.matrix@ =~= upd_piece(old(self).matrix, x as int, y as int, p)@);
            assert(self.matrix =~= upd_piece(old(self).matrix, x as int, y as int, p));
            assert(*self =~= (Game {
                matrix: upd_piece(old(self).matrix, x as int, y as int, p),
                ..*old(self)
            }));
        }
    }

    /// Whether `square` is attacked by the opponent of the side to move, by
    /// re-running the sliding, jumping and pawn-capture generators from the
    /// square itself and looking for a capture of the matching rank.
    pub fn check_square_attacked(&self, square: Square) -> (r: bool)
        requires
            self.wf(),
            in_bounds_xy(square.coordinate.0 as int, square.coordinate.1 as int),
        ensures
            r == moves::spec_square_attacked(self.matrix, self.player, square),
    {
        let diag = moves::gen_moveset_bishop(self, square);
        if moves::captures_rank(&diag, Rank::Bishop) {
            return true;
        }
        let straight = moves::gen_moveset_rook(self, square);
        if moves::captures_rank(&straight, Rank::Rook) {
            return true;
        }
        let both = moves::gen_moveset_queen(self, square);
        if moves::captures_rank(&both, Rank::Queen) {
            return true;
        }
        let jumps = moves::gen_moveset_knight(self, square);
        if moves::captures_rank(&jumps, Rank::Knight) {
            return true;
        }
        let pawn_captures = moves::gen_pawn_attack_moveset(self, square);
        if moves::captures_rank(&pawn_captures, Rank::Pawn) {
            return true;
        }
        false
    }

    /// Mutates the board (and the mover's king cache) according to one
    /// action.  The history, the side to move and the counters are advanced
    /// by [`Game::perform_action`], not here.
    pub(crate) fn make_move(&mut self, action: &Action)
        requires
            old(self).wf(),
            spec_action_sane(*old(self), *action),
        ensures
            *final(self) == spec_game_after(*old(self), *action),
            final(self).wf(),
    {
        let coordinate_from = action.from.coordinate;
        let coordinate_to = action.to.coordinate;
        let fx = coordinate_from.0 as usize;
        let fy = coordinate_from.1 as usize;
        let tx = coordinate_to.0 as usize;
        let ty = coordinate_to.1 as usize;
        let moving_piece = self.matrix[fx][fy].piece;

        match action.action_type {
            ActionType::Regular => {
                let from_is_king = match action.from.piece {
                    Some(p) => p.rank == Rank::King,
                    None => false,
                };
                if from_is_king {
                    match self.player {
                        Team::White => {
                            self.white_king_square = self.matrix[tx][ty];
                        },
                        Team::Black => {
                            self.black_king_square = self.matrix[tx][ty];
                        },
                    }
                }
                self.set_piece(tx, ty, moving_piece);
                self.set_piece(fx, fy, None);
            },
            ActionType::Promotion => {
                self.set_piece(tx, ty, moving_piece);
                self.set_piece(fx, fy, None);
            },
            ActionType::Enpassant => {
                let team_offset: isize = match self.player {
                    Team::White => 1,
                    Team::Black => -1,
                };
                self.set_piece(tx, ty, moving_piece);
                self.set_piece(fx, fy, None);
                self.set_piece(tx, (coordinate_to.1 - team_offset) as usize, None);
            },
            ActionType::Castling => {
                if coordinate_to.0 > coordinate_from.0 {
                    let rook_piece = self.matrix[7][fy].piece;
                    self.set_piece(tx, ty, moving_piece);
                    self.set_piece(fx, fy, None);
                    self.set_piece(fx + 1, fy, rook_piece);
                    self.set_piece(7, fy, None);
                } else {
                    let rook_piece = self.matrix[0][fy].piece;
                    self.set_piece(tx, ty, moving_piece);
                    self.set_piece(fx, fy, None);
                    self.set_piece(fx - 1, fy, rook_piece);
                    self.set_piece(0, fy, None);
                }
                let landed = self.matrix[tx][ty];
                match self.player {
                    Team::White => {
                        self.white_king_square = landed;
                    },
                    Team::Black => {
                        self.black_king_square = landed;
                    },
                }
            },
        }
        proof {
            assert(*self =~= spec_game_after(*old(self), *action));
            lemma_game_after_wf(*old(self), *action);
        }
    }

    /// Simulates the action on a disposable copy of the position and reports
    /// whether it leaves the mover's own king attacked: the probe behind the
    /// legality filter.
    pub fn check(&self, action: &Action) -> (r: bool)
        requires
            self.wf(),
            spec_action_sane(*self, *action),
        ensures
            r == spec_in_check_after(*self, *action),
    {
        // The probe never consults the history, so the scratch copy carries
        // none.
        let mut testing_game = Game {
            gamestate: self.gamestate,
            matrix: self.matrix,
            player: self.player,
            history: Vec::new(),
            white_king_square: self.white_king_square,
            black_king_square: self.black_king_square,
            fifty_turn: self.fifty_turn,
        };
        testing_game.make_move(action);
        let king_square = match self.player {
            Team::White => testing_game.white_king_square,
            Team::Black => testing_game.black_king_square,
        };
        testing_game.check_square_attacked(king_square)
    }
}

/// After a sane action on a well-formed game the game is still well formed:
/// the coordinates stay put and the mover's king cache stays on the board.
pub proof fn lemma_game_after_wf(g: Game, a: Action)
    requires
        g.wf(),
        spec_action_sane(g, a),
    ensures
        spec_game_after(g, a).wf(),
        forall|i: int, j: int|
            in_bounds_xy(i, j) ==> (#[trigger] board_sq(
                spec_matrix_after(g.matrix, g.player, a),
                i,
                j,
            )).coordinate == board_sq(g.matrix, i, j).coordinate,
{
    let fx = a.from.coordinate.0 as int;
    let fy = a.from.coordinate.1 as int;
    let tx = a.to.coordinate.0 as int;
    let ty = a.to.coordinate.1 as int;
    let moving = board_sq(g.matrix, fx, fy).piece;
    let m = g.matrix;
    match a.action_type {
        ActionType::Regular | ActionType::Promotion => {
            let m1 = upd_piece(m, tx, ty, moving);
            lemma_upd_piece_keeps_coords(m, tx, ty, moving);
            lemma_upd_piece_keeps_coords(m1, fx, fy, None);
        },
        ActionType::Enpassant => {
            let m1 = upd_piece(m, tx, ty, moving);
            let m2 = upd_piece(m1, fx, fy, None);
            lemma_upd_piece_keeps_coords(m, tx, ty, moving);
            lemma_upd_piece_keeps_coords(m1, fx, fy, None);
            lemma_upd_piece_keeps_coords(m2, tx, ty - moves::spec_team_dir(g.player), None);
        },
        ActionType::Castling => {
            if tx > fx {
                let rook = board_sq(m, 7, fy).piece;
                let m1 = upd_piece(m, tx, ty, moving);
                let m2 = upd_piece(m1, fx, fy, None);
                let m3 = upd_piece(m2, fx + 1, fy, rook);
                lemma_upd_piece_keeps_coords(m, tx, ty, moving);
                lemma_upd_piece_keeps_coords(m1, fx, fy, None);
                lemma_upd_piece_keeps_coords(m2, fx + 1, fy, rook);
                lemma_upd_piece_keeps_coords(m3, 7, fy, None);
            } else {
                let rook = board_sq(m, 0, fy).piece;
                let m1 = upd_piece(m, tx, ty, moving);
                let m2 = upd_piece(m1, fx, fy, None);
                let m3 = upd_piece(m2, fx - 1, fy, rook);
                lemma_upd_piece_keeps_coords(m, tx, ty, moving);
                lemma_upd_piece_keeps_coords(m1, fx, fy, None);
                lemma_upd_piece_keeps_coords(m2, fx - 1, fy, rook);
                lemma_upd_piece_keeps_coords(m3, 0, fy, None);
            }
        },
    }
}

/// The legal moves available from the square `(x, y)`: those of the piece
/// standing there when it belongs to the side to move, none otherwise.
pub open spec fn spec_square_moves(g: Game, x: int, y: int) -> Seq<Action> {
    if board_sq(g.matrix, x, y).piece matches Some(p) && p.team == g.player {
        moves::spec_legal_moves(g, board_sq(g.matrix, x, y))
    } else {
        Seq::empty()
    }
}

/// The legal moves of the side to move gathered from the first `n` squares in
/// file-major order.
pub open spec fn spec_all_moves_upto(g: Game, n: nat) -> Seq<Action>
    decreases n,
{
    if n == 0 {
        Seq::empty()
    } else {
        spec_all_moves_upto(g, (n - 1) as nat) + spec_square_moves(
            g,
            ((n - 1) as int) / 8,
            ((n - 1) as int) % 8,
        )
    }
}

/// All legal moves of the side to move.
pub open spec fn spec_all_moves(g: Game) -> Seq<Action> {
    spec_all_moves_upto(g, 64)
}

/// Every gathered move starts on its own square, is sound to perform, and
/// leaves the mover's king unattacked.
pub proof fn lemma_all_moves_upto_sane(g: Game, n: nat)
    requires
        g.wf(),
        n <= 64,
    ensures
        forall|i: int|
            0 <= i < spec_all_moves_upto(g, n).len() ==> {
                let a = #[trigger] spec_all_moves_upto(g, n)[i];
                &&& spec_action_sane(g, a)
                &&& !spec_in_check_after(g, a)
                &&& a.from == board_sq(
                    g.matrix,
                    a.from.coordinate.0 as int,
                    a.from.coordinate.1 as int,
                )
                &&& a.from.piece matches Some(p) && p.team == g.player
            },
    decreases n,
{
    if n > 0 {
        lemma_all_moves_upto_sane(g, (n - 1) as nat);
        let x = ((n - 1) as int) / 8;
        let y = ((n - 1) as int) % 8;
        let sq = board_sq(g.matrix, x, y);
        let prefix = spec_all_moves_upto(g, (n - 1) as nat);
        let part = spec_square_moves(g, x, y);
        moves::lemma_legal_moves_sane(g, sq);
        assert forall|i: int| 0 <= i < spec_all_moves_upto(g, n).len() implies {
            let a = #[trigger] spec_all_moves_upto(g, n)[i];
            &&& spec_action_sane(g, a)
            &&& !spec_in_check_after(g, a)
            &&& a.from == board_sq(
                g.matrix,
                a.from.coordinate.0 as int,
                a.from.coordinate.1 as int,
            )
            &&& a.from.piece matches Some(p) && p.team == g.player
        } by {
            if i < prefix.len() {
                assert(spec_all_moves_upto(g, n)[i] == prefix[i]);
            } else {
                assert(spec_all_moves_upto(g, n)[i] == part[i - prefix.len()]);
                assert(sq.coordinate == (x as isize, y as isize));
            }
        }
    }
}

/// See [`lemma_all_moves_upto_sane`], for the whole board.
pub proof fn lemma_all_moves_sane(g: Game)
    requires
        g.wf(),
    ensures
        forall|i: int|
            0 <= i < spec_all_moves(g).len() ==> {
                let a = #[trigger] spec_all_moves(g)[i];
                &&& spec_action_sane(g, a)
                &&& !spec_in_check_after(g, a)
                &&& a.from == board_sq(
                    g.matrix,
                    a.from.coordinate.0 as int,
                    a.from.coordinate.1 as int,
                )
                &&& a.from.piece matches Some(p) && p.team == g.player
            },
{
    lemma_all_moves_upto_sane(g, 64);
}

/// The half-move counter after one more ply: reset by a capture (the
/// destination snapshot held a piece) or a pawn move, otherwise up by one;
/// untouched while no action has been performed, and capped once the draw
/// threshold is reached.
pub open spec fn spec_fifty_after(g: Game) -> int {
    if g.history@.len() == 0 {
        g.fifty_turn as int
    } else {
        let last = g.history@.last();
        if last.to.piece is Some {
            0
        } else if last.from.piece matches Some(p) && p.rank == Rank::Pawn {
            0
        } else if g.fifty_turn < 100 {
            g.fifty_turn + 1
        } else {
            g.fifty_turn as int
        }
    }
}

/// The state derived for the side to move: no legal moves means checkmate
/// under attack and stalemate otherwise; an attacked king means check; then
/// the fifty-move counter is advanced and 100 half-moves without a reset is
/// a draw; otherwise the game is simply active.
pub open spec fn spec_state_after(g: Game) -> GameState {
    let attacked = moves::spec_square_attacked(g.matrix, g.player, g.spec_king_square(g.player));
    let has_moves = spec_all_moves(g).len() > 0;
    if !has_moves {
        if attacked {
            GameState::Checkmate
        } else {
            GameState::Stalemate
        }
    } else if attacked {
        GameState::Check
    } else if spec_fifty_after(g) >= 100 {
        GameState::FiftyRule
    } else {
        GameState::Active
    }
}

/// The counter value the state machine leaves behind: it only moves on the
/// path where the game stays active or reaches the fifty-move draw.
pub open spec fn spec_fifty_final(g: Game) -> int {
    let attacked = moves::spec_square_attacked(g.matrix, g.player, g.spec_king_square(g.player));
    let has_moves = spec_all_moves(g).len() > 0;
    if !has_moves || attacked {
        g.fifty_turn as int
    } else {
        spec_fifty_after(g)
    }
}

impl Game {
    /// Gathers the legal moves of every square belonging to the side to
    /// move, in file-major board order.
    #[verifier::loop_isolation(false)]
    pub fn all_moves(&self) -> (r: Vec<Action>)
        requires
            self.wf(),
        ensures
            r@ == spec_all_moves(*self),
    {
        let mut all_moves: Vec<Action> = Vec::new();
        let mut n: usize = 0;
        while n < 64
            invariant
                0 <= n <= 64,
                all_moves@ == spec_all_moves_upto(*self, n as nat),
            decreases 64 - n,
        {
            let x = n / 8;
            let y = n % 8;
            let square = self.matrix[x][y];
            match moves::generate_moves(self, square) {
                Ok(mut generated) => {
                    all_moves.append(&mut generated);
                },
                Err(_) => {},
            }
            proof {
                assert(all_moves@ =~= spec_all_moves_upto(*self, (n + 1) as nat));
            }
            n += 1;
        }
        all_moves
    }

    /// Whether the side to move has any legal move at all.
    pub fn is_more_moves(&self) -> (r: bool)
        requires
            self.wf(),
        ensures
            r == (spec_all_moves(*self).len() > 0),
    {
        let all_moves = self.all_moves();
        !all_moves.is_empty()
    }

    /// Recomputes the game state for the side to move and stores it,
    /// advancing the fifty-move counter on the active path: the counter
    /// resets to zero when the last action captured a piece or moved a pawn
    /// and otherwise goes up by one, and reaching 100 half-moves without a
    /// reset is the fifty-move draw.
    pub fn calculate_game_state(&mut self) -> (r: GameState)
        requires
            old(self).wf(),
        ensures
            r == spec_state_after(*old(self)),
            *final(self) == (Game {
                gamestate: spec_state_after(*old(self)),
                fifty_turn: spec_fifty_final(*old(self)) as i32,
                ..*old(self)
            }),
            final(self).wf(),
    {
        let king_square = match self.player {
            Team::White => self.white_king_square,
            Team::Black => self.black_king_square,
        };
        let is_check = self.check_square_attacked(king_square);

        if !self.is_more_moves() {
            if is_check {
                self.gamestate = GameState::Checkmate;
                return GameState::Checkmate;
            } else {
                self.gamestate = GameState::Stalemate;
                return GameState::Stalemate;
            }
        }
        if is_check {
            self.gamestate = GameState::Check;
            return GameState::Check;
        }

        if self.history.len() > 0 {
            let last = self.history[self.history.len() - 1];
            let last_moved_pawn = match last.from.piece {
                Some(p) => p.rank == Rank::Pawn,
                None => false,
            };
            if last.to.piece.is_some() {
                self.fifty_turn = 0;
            } else if last_moved_pawn {
                self.fifty_turn = 0;
            } else if self.fifty_turn < 100 {
                self.fifty_turn = self.fifty_turn + 1;
            }
        }
        if self.fifty_turn >= 100 {
            self.gamestate = GameState::FiftyRule;
            return GameState::FiftyRule;
        }
        self.gamestate = GameState::Active;
        GameState::Active
    }

    /// The state stored after the latest action.
    pub fn get_game_state(&self) -> (r: GameState)
        ensures
            r == self.gamestate,
    {
        self.gamestate
    }

    /// Performs a non-promotion action: appends it to the history, mutates
    /// the board and king cache, hands the turn to the opponent, and derives
    /// the new game state.  Promotions carry a chosen rank and go through
    /// [`Game::perform_promotion`].
    pub fn perform_action(&mut self, action: Action)
        requires
            old(self).wf(),
            spec_action_sane(*old(self), action),
            action.action_type != ActionType::Promotion,
        ensures
            final(self).history@ == old(self).history@.push(action),
            final(self).matrix == spec_matrix_after(old(self).matrix, old(self).player, action),
            final(self).white_king_square == spec_game_after(
                *old(self),
                action,
            ).white_king_square,
            final(self).black_king_square == spec_game_after(
                *old(self),
                action,
            ).black_king_square,
            final(self).player == spec_next_player(old(self).player),
            ({
                let mid = Game {
                    gamestate: old(self).gamestate,
                    fifty_turn: old(self).fifty_turn,
                    ..*final(self)
                };
                &&& final(self).gamestate == spec_state_after(mid)
                &&& final(self).fifty_turn as int == spec_fifty_final(mid)
            }),
            final(self).wf(),
    {
        self.history.push(action);
        self.make_move(&action);
        self.player = next_player(self.player);
        self.calculate_game_state();
    }

    /// Performs a promotion action: the pawn leaves its square and a new
    /// piece of the chosen rank (the caller's input, constrained to queen,
    /// rook, bishop or knight) appears on the destination; then the turn
    /// passes and the state is derived as for any other action.
    pub fn perform_promotion(&mut self, action: Action, promotion_rank: Rank)
        requires
            old(self).wf(),
            spec_action_sane(*old(self), action),
            action.action_type == ActionType::Promotion,
            promotion_rank == Rank::Queen || promotion_rank == Rank::Rook || promotion_rank
                == Rank::Bishop || promotion_rank == Rank::Knight,
        ensures
            final(self).history@ == old(self).history@.push(action),
            final(self).matrix == upd_piece(
                upd_piece(
                    old(self).matrix,
                    action.from.coordinate.0 as int,
                    action.from.coordinate.1 as int,
                    None,
                ),
                action.to.coordinate.0 as int,
                action.to.coordinate.1 as int,
                Some(Piece { team: old(self).player, rank: promotion_rank }),
            ),
            final(self).player == spec_next_player(old(self).player),
            final(self).white_king_square == old(self).white_king_square,
            final(self).black_king_square == old(self).black_king_square,
            ({
                let mid = Game {
                    gamestate: old(self).gamestate,
                    fifty_turn: old(self).fifty_turn,
                    ..*final(self)
                };
                &&& final(self).gamestate == spec_state_after(mid)
                &&& final(self).fifty_turn as int == spec_fifty_final(mid)
            }),
            final(self).wf(),
    {
        self.history.push(action);
        let fx = action.from.coordinate.0 as usize;
        let fy = action.from.coordinate.1 as usize;
        let tx = action.to.coordinate.0 as usize;
        let ty = action.to.coordinate.1 as usize;
        self.set_piece(fx, fy, None);
        let promoted = Piece { team: self.player, rank: promotion_rank };
        self.set_piece(tx, ty, Some(promoted));
        proof {
            lemma_upd_piece_keeps_coords(
                old(self).matrix,
                action.from.coordinate.0 as int,
                action.from.coordinate.1 as int,
                None,
            );
            lemma_upd_piece_keeps_coords(
                upd_piece(
                    old(self).matrix,
                    action.from.coordinate.0 as int,
                    action.from.coordinate.1 as int,
                    None,
                ),
                action.to.coordinate.0 as int,
                action.to.coordinate.1 as int,
                Some(Piece { team: old(self).player, rank: promotion_rank }),
            );
        }
        self.player = next_player(self.player);
        self.calculate_game_state();
    }

    /// The legal moves of the piece on the square named by a textual
    /// coordinate, or the error describing why there are none to list: a
    /// coordinate out of shape, an empty square, or an enemy piece.
    pub fn move_from_string(&self, letter_coordinate: &str) -> (r: Result<Vec<Action>, String>)
        requires
            self.wf(),
        ensures
            match r {
                Ok(v) => spec_coord_from_text(letter_coordinate@) matches Some(c) && {
                    let sq = board_sq(self.matrix, c.0 as int, c.1 as int);
                    &&& sq.piece matches Some(p) && p.team == self.player
                    &&& v@ == moves::spec_legal_moves(*self, sq)
                },
                Err(e) => match spec_coord_from_text(letter_coordinate@) {
                    Some(c) => {
                        let sq = board_sq(self.matrix, c.0 as int, c.1 as int);
                        (sq.piece is None && e@ == "Tried to move empty square"@) || (
                        sq.piece matches Some(p) && p.team != self.player && e@
                            == "Cant move enemy piece"@)
                    },
                    None => true,
                },
            },
    {
        let square = match self.square_from_string(letter_coordinate) {
            Ok(s) => s,
            Err(e) => {
                return Err(e);
            },
        };
        moves::generate_moves(self, square)
    }
}

/// The back-rank piece of the canonical starting position on file `x`.
pub open spec fn back_rank(x: int) -> Rank {
    if x == 0 || x == 7 {
        Rank::Rook
    } else if x == 1 || x == 6 {
        Rank::Knight
    } else if x == 2 || x == 5 {
        Rank::Bishop
    } else if x == 3 {
        Rank::Queen
    } else {
        Rank::King
    }
}

/// The canonical chess starting position: white pieces on ranks 1 and 2,
/// black pieces on ranks 7 and 8, queens on the d-file, kings on the e-file.
pub open spec fn initial_piece(x: int, y: int) -> Option<Piece> {
    if y == 0 {
        Some(Piece { team: Team::White, rank: back_rank(x) })
    } else if y == 1 {
        Some(Piece { team: Team::White, rank: Rank::Pawn })
    } else if y == 6 {
        Some(Piece { team: Team::Black, rank: Rank::Pawn })
    } else if y == 7 {
        Some(Piece { team: Team::Black, rank: back_rank(x) })
    } else {
        None
    }
}

/// A board holding only the two kings on their home squares.
pub open spec fn empty_kings_piece(x: int, y: int) -> Option<Piece> {
    if x == 4 && y == 0 {
        Some(Piece { team: Team::White, rank: Rank::King })
    } else if x == 4 && y == 7 {
        Some(Piece { team: Team::Black, rank: Rank::King })
    } else {
        None
    }
}

/// The canonical starting piece for `(x, y)`.
fn initial_piece_at(x: usize, y: usize) -> (p: Option<Piece>)
    requires
        x < 8,
        y < 8,
    ensures
        p == initial_piece(x as int, y as int),
{
    if y == 0 || y == 7 {
        let team = if y == 0 {
            Team::White
        } else {
            Team::Black
        };
        let rank = if x == 0 || x == 7 {
            Rank::Rook
        } else if x == 1 || x == 6 {
            Rank::Knight
        } else if x == 2 || x == 5 {
            Rank::Bishop
        } else if x == 3 {
            Rank::Queen
        } else {
            Rank::King
        };
        Some(Piece { team, rank })
    } else if y == 1 {
        Some(Piece { team: Team::White, rank: Rank::Pawn })
    } else if y == 6 {
        Some(Piece { team: Team::Black, rank: Rank::Pawn })
    } else {
        None
    }
}

/// An all-empty board whose squares carry their own coordinates.
#[verifier::loop_isolation(false)]
fn empty_board() -> (m: [[Square; 8]; 8])
    ensures
        matrix_wf(m),
        forall|x: int, y: int|
            in_bounds_xy(x, y) ==> (#[trigger] board_sq(m, x, y)).piece is None,
{
    let blank = Square { piece: None, coordinate: (0, 0) };
    let mut m: [[Square; 8]; 8] = [[blank; 8]; 8];
    let mut x: usize = 0;
    while x < 8
        invariant
            0 <= x <= 8,
            forall|a: int, b: int|
                0 <= a < x && 0 <= b < 8 ==> (#[trigger] m@[a]@[b]) == (Square {
                    piece: None,
                    coordinate: (a as isize, b as isize),
                }),
        decreases 8 - x,
    {
        let mut col: [Square; 8] = m[x];
        let mut y: usize = 0;
        while y < 8
            invariant
                0 <= y <= 8,
                x < 8,
                forall|b: int|
                    0 <= b < y ==> (#[trigger] col@[b]) == (Square {
                        piece: None,
                        coordinate: (x as isize, b as isize),
                    }),
                forall|a: int, b: int|
                    0 <= a < x && 0 <= b < 8 ==> (#[trigger] m@[a]@[b]) == (Square {
                        piece: None,
                        coordinate: (a as isize, b as isize),
                    }),
            decreases 8 - y,
        {
            col[y] = Square { piece: None, coordinate: (x as isize, y as isize) };
            y += 1;
        }
        m[x] = col;
        x += 1;
    }
    m
}

impl Game {
    /// A fresh game in the canonical starting position, White to move, with
    /// the derived state computed as after any action.
    pub fn new() -> (g: Game)
        ensures
            spec_initial_game(g),
    {
        Game::board_game(true)
    }

    /// A game holding only the two kings on their home squares: a blank
    /// canvas for test positions.
    pub fn new_empty() -> (g: Game)
        ensures
            g.wf(),
            g.player == Team::White,
            g.history@.len() == 0,
            g.fifty_turn == 0,
            forall|x: int, y: int|
                in_bounds_xy(x, y) ==> (#[trigger] board_sq(g.matrix, x, y)) == (Square {
                    piece: empty_kings_piece(x, y),
                    coordinate: (x as isize, y as isize),
                }),
            g.white_king_square == board_sq(g.matrix, 4, 0),
            g.black_king_square == board_sq(g.matrix, 4, 7),
            g.gamestate == spec_state_after(Game { gamestate: GameState::Active, ..g }),
    {
        Game::board_game(false)
    }

    /// Builds either the canonical start or the kings-only board.
    #[verifier::loop_isolation(false)]
    fn board_game(standard: bool) -> (g: Game)
        ensures
            g.wf(),
            g.player == Team::White,
            g.history@.len() == 0,
            g.fifty_turn == 0,
            forall|x: int, y: int|
                in_bounds_xy(x, y) ==> (#[trigger] board_sq(g.matrix, x, y)) == (Square {
                    piece: if standard {
                        initial_piece(x, y)
                    } else {
                        empty_kings_piece(x, y)
                    },
                    coordinate: (x as isize, y as isize),
                }),
            g.white_king_square == board_sq(g.matrix, 4, 0),
            g.black_king_square == board_sq(g.matrix, 4, 7),
            g.gamestate == spec_state_after(Game { gamestate: GameState::Active, ..g }),
    {
        let mut game = Game {
            gamestate: GameState::Active,
            matrix: empty_board(),
            player: Team::White,
            history: Vec::new(),
            white_king_square: Square { piece: None, coordinate: (0, 0) },
            black_king_square: Square { piece: None, coordinate: (0, 0) },
            fifty_turn: 0,
        };
        let mut x: usize = 0;
        while x < 8
            invariant
                0 <= x <= 8,
                game.wf(),
                game.player == Team::White,
                game.history@.len() == 0,
                game.fifty_turn == 0,
                game.gamestate == GameState::Active,
                forall|a: int, b: int|
                    in_bounds_xy(a, b) ==> (#[trigger] board_sq(game.matrix, a, b)).piece == (
                    if a < x {
                        if standard {
                            initial_piece(a, b)
                        } else {
                            empty_kings_piece(a, b)
                        }
                    } else {
                        None
                    }),
            decreases 8 - x,
        {
            let mut y: usize = 0;
            while y < 8
                invariant
                    0 <= y <= 8,
                    x < 8,
                    game.wf(),
                    game.player == Team::White,
                    game.history@.len() == 0,
                    game.fifty_turn == 0,
                    game.gamestate == GameState::Active,
                    forall|a: int, b: int|
                        in_bounds_xy(a, b) ==> (#[trigger] board_sq(game.matrix, a, b)).piece == (
                        if a < x || (a == x && b < y) {
                            if standard {
                                initial_piece(a, b)
                            } else {
                                empty_kings_piece(a, b)
                            }
                        } else {
                            None
                        }),
                decreases 8 - y,
            {
                let piece = if standard {
                    initial_piece_at(x, y)
                } else if x == 4 && y == 0 {
                    Some(Piece { team: Team::White, rank: Rank::King })
                } else if x == 4 && y == 7 {
                    Some(Piece { team: Team::Black, rank: Rank::King })
                } else {
                    None
                };
                let ghost before = game.matrix;
                game.set_piece(x, y, piece);
                proof {
                    lemma_upd_piece_keeps_coords(before, x as int, y as int, piece);
                    assert forall|a: int, b: int| in_bounds_xy(a, b) implies (#[trigger] board_sq(
                        game.matrix,
                        a,
                        b,
                    )).piece == (if a < x || (a == x && b < y + 1) {
                        if standard {
                            initial_piece(a, b)
                        } else {
                            empty_kings_piece(a, b)
                        }
                    } else {
                        None
                    }) by {
                        lemma_upd_piece(before, x as int, y as int, piece, a, b);
                    }
                }
                y += 1;
            }
            x += 1;
        }
        game.white_king_square = game.matrix[4][0];
        game.black_king_square = game.matrix[4][7];
        game.calculate_game_state();
        game
    }
}

/// Whether the character counts as whitespace between layout blocks.
pub open spec fn spec_is_space(c: char) -> bool {
    c == ' ' || c == '\n' || c == '\t' || c == '\r'
}

pub(crate) fn is_space(c: char) -> (r: bool)
    ensures
        r == spec_is_space(c),
{
    c == ' ' || c == '\n' || c == '\t' || c == '\r'
}

/// The whitespace-separated blocks of `s` from position `i` on, given the
/// block read so far and the blocks already collected: the accumulator form
/// of splitting on whitespace.
pub open spec fn spec_tokens_from(
    s: Seq<char>,
    i: nat,
    cur: Seq<char>,
    acc: Seq<Seq<char>>,
) -> Seq<Seq<char>>
    decreases s.len() - i,
{
    if i >= s.len() {
        if cur.len() > 0 {
            acc.push(cur)
        } else {
            acc
        }
    } else if spec_is_space(s[i as int]) {
        if cur.len() > 0 {
            spec_tokens_from(s, i + 1, Seq::empty(), acc.push(cur))
        } else {
            spec_tokens_from(s, i + 1, cur, acc)
        }
    } else {
        spec_tokens_from(s, i + 1, cur.push(s[i as int]), acc)
    }
}

/// The whitespace-separated blocks of `s`.
pub open spec fn spec_tokens(s: Seq<char>) -> Seq<Seq<char>> {
    spec_tokens_from(s, 0, Seq::empty(), Seq::empty())
}

/// Splits a layout description into its whitespace-separated blocks.
#[verifier::loop_isolation(false)]
fn layout_tokens(s: &str) -> (r: Vec<Vec<char>>)
    ensures
        r.deep_view() == spec_tokens(s@),
{
    let n = s.unicode_len();
    let mut acc: Vec<Vec<char>> = Vec::new();
    let mut cur: Vec<char> = Vec::new();
    proof {
        assert(acc.deep_view() =~~= Seq::<Seq<char>>::empty());
    }
    let mut i: usize = 0;
    while i < n
        invariant
            0 <= i <= n,
            n == s@.len(),
            spec_tokens(s@) == spec_tokens_from(s@, i as nat, cur@, acc.deep_view()),
        decreases n - i,
    {
        let ghost acc_before = acc.deep_view();
        let ghost cur_before = cur@;
        let c = s.get_char(i);
        if is_space(c) {
            if cur.len() > 0 {
                acc.push(cur);
                cur = Vec::new();
                proof {
                    assert(acc.deep_view() =~~= acc_before.push(cur_before));
                }
            }
        } else {
            cur.push(c);
        }
        i += 1;
    }
    if cur.len() > 0 {
        let ghost acc_before = acc.deep_view();
        let ghost cur_before = cur@;
        acc.push(cur);
        proof {
            assert(acc.deep_view() =~~= acc_before.push(cur_before));
        }
    }
    acc
}

/// The rank named by a layout letter, if any.
pub open spec fn spec_rank_letter(c: char) -> Option<Rank> {
    if c == 'P' {
        Some(Rank::Pawn)
    } else if c == 'R' {
        Some(Rank::Rook)
    } else if c == 'N' {
        Some(Rank::Knight)
    } else if c == 'B' {
        Some(Rank::Bishop)
    } else if c == 'Q' {
        Some(Rank::Queen)
    } else if c == 'K' {
        Some(Rank::King)
    } else {
        None
    }
}

/// The team named by a layout letter, if any.
pub open spec fn spec_team_letter(c: char) -> Option<Team> {
    if c == 'W' {
        Some(Team::White)
    } else if c == 'B' {
        Some(Team::Black)
    } else {
        None
    }
}

/// What a two-character layout block describes: `None` for a malformed
/// block, `Some(None)` for the empty-square block, `Some(Some(piece))` for a
/// piece block.
pub open spec fn spec_block_piece(t: Seq<char>) -> Option<Option<Piece>> {
    if t.len() != 2 {
        None
    } else if t[0] == 'X' && t[1] == 'X' {
        Some(None)
    } else {
        match (spec_rank_letter(t[0]), spec_team_letter(t[1])) {
            (Some(rank), Some(team)) => Some(Some(Piece { team, rank })),
            _ => None,
        }
    }
}

/// Decodes one layout block: `XX` for an empty square, otherwise a rank
/// letter followed by a team letter.
fn block_to_piece(block: &Vec<char>) -> (r: Result<Option<Piece>, String>)
    ensures
        match r {
            Ok(p) => spec_block_piece(block@) == Some(p),
            Err(_) => spec_block_piece(block@) is None,
        },
{
    if block.len() != 2 {
        return Err(String::from_str("not a pair"));
    }
    let rank_letter = block[0];
    let team_letter = block[1];
    if rank_letter == 'X' && team_letter == 'X' {
        return Ok(None);
    }
    let rank = if rank_letter == 'P' {
        Rank::Pawn
    } else if rank_letter == 'R' {
        Rank::Rook
    } else if rank_letter == 'N' {
        Rank::Knight
    } else if rank_letter == 'B' {
        Rank::Bishop
    } else if rank_letter == 'Q' {
        Rank::Queen
    } else if rank_letter == 'K' {
        Rank::King
    } else {
        return Err(String::from_str("Piece letter not valid"));
    };
    let team = if team_letter == 'W' {
        Team::White
    } else if team_letter == 'B' {
        Team::Black
    } else {
        return Err(String::from_str("Team letter not valid"));
    };
    Ok(Some(Piece { rank, team }))
}

/// The piece that a valid 64-block layout places on `(x, y)`: blocks are
/// read top rank first, so board rank `y` reads block row `7 - y`.
pub open spec fn spec_layout_piece(toks: Seq<Seq<char>>, x: int, y: int) -> Option<Piece>
    recommends
        toks.len() == 64,
        in_bounds_xy(x, y),
{
    match spec_block_piece(toks[8 * (7 - y) + x]) {
        Some(p) => p,
        None => None,
    }
}

/// Whether the text is a well-formed layout: exactly 64 blocks, each valid.
pub open spec fn spec_layout_blocks_ok(s: Seq<char>) -> bool {
    let toks = spec_tokens(s);
    &&& toks.len() == 64
    &&& forall|i: int| 0 <= i < 64 ==> spec_block_piece(#[trigger] toks[i]) is Some
}

/// The board coordinate of the last square in scan order (rank-major from
/// rank 1) among the first `n` scanned that holds `team`'s king.
pub open spec fn spec_last_layout_king(toks: Seq<Seq<char>>, team: Team, n: nat) -> Option<
    (int, int),
>
    decreases n,
{
    if n == 0 {
        None
    } else {
        let y = ((n - 1) as int) / 8;
        let x = ((n - 1) as int) % 8;
        if spec_layout_piece(toks, x, y) matches Some(p) && p.rank == Rank::King && p.team
            == team {
            Some((x, y))
        } else {
            spec_last_layout_king(toks, team, (n - 1) as nat)
        }
    }
}

/// Whether the layout is usable: well formed and holding a king per team,
/// so that the king caches and the state machine are meaningful.
pub open spec fn spec_layout_ok(s: Seq<char>) -> bool {
    &&& spec_layout_blocks_ok(s)
    &&& spec_last_layout_king(spec_tokens(s), Team::White, 64) is Some
    &&& spec_last_layout_king(spec_tokens(s), Team::Black, 64) is Some
}

impl Game {
    /// A game built from a textual layout: 64 whitespace-separated blocks,
    /// top rank first, `XX` for an empty square or a rank letter followed by
    /// a team letter.  Fails on anything but exactly 64 valid blocks, or
    /// when either side's king is missing; on success White is to move, the
    /// history is empty and the state is derived as after any action.
    #[verifier::loop_isolation(false)]
    pub fn game_from_blockstate(blocks: &str) -> (r: Result<Game, String>)
        ensures
            r is Ok <==> spec_layout_ok(blocks@),
            match r {
                Ok(g) => {
                    let toks = spec_tokens(blocks@);
                    &&& g.wf()
                    &&& g.player == Team::White
                    &&& g.history@.len() == 0
                    &&& g.fifty_turn == 0
                    &&& forall|x: int, y: int|
                        in_bounds_xy(x, y) ==> (#[trigger] board_sq(g.matrix, x, y)) == (Square {
                            piece: spec_layout_piece(toks, x, y),
                            coordinate: (x as isize, y as isize),
                        })
                    &&& spec_last_layout_king(toks, Team::White, 64) matches Some(w)
                        && g.white_king_square == board_sq(g.matrix, w.0, w.1)
                    &&& spec_last_layout_king(toks, Team::Black, 64) matches Some(b)
                        && g.black_king_square == board_sq(g.matrix, b.0, b.1)
                    &&& g.gamestate == spec_state_after(
                        Game { gamestate: GameState::Active, ..g },
                    )
                },
                Err(_) => true,
            },
    {
        let tokens = layout_tokens(blocks);
        let ghost toks = spec_tokens(blocks@);
        if tokens.len() != 64 {
            return Err(String::from_str("layout wasnt exactly 64 blocks"));
        }
        let mut pieces: Vec<Option<Piece>> = Vec::new();
        let mut i: usize = 0;
        while i < 64
            invariant
                0 <= i <= 64,
                tokens.deep_view() == toks,
                tokens@.len() == 64,
                pieces@.len() == i,
                forall|j: int|
                    0 <= j < i ==> spec_block_piece(#[trigger] toks[j]) == Some(pieces@[j]),
            decreases 64 - i,
        {
            proof {
                assert(tokens@[i as int]@ == toks[i as int]);
            }
            match block_to_piece(&tokens[i]) {
                Ok(p) => pieces.push(p),
                Err(e) => {
                    return Err(e);
                },
            }
            i += 1;
        }

        let mut game = Game {
            gamestate: GameState::Active,
            matrix: empty_board(),
            player: Team::White,
            history: Vec::new(),
            white_king_square: Square { piece: None, coordinate: (0, 0) },
            black_king_square: Square { piece: None, coordinate: (0, 0) },
            fifty_turn: 0,
        };
        let mut y: usize = 0;
        while y < 8
            invariant
                0 <= y <= 8,
                pieces@.len() == 64,
                forall|j: int| 0 <= j < 64 ==> spec_block_piece(#[trigger] toks[j]) == Some(
                    pieces@[j],
                ),
                game.wf(),
                game.player == Team::White,
                game.history@.len() == 0,
                game.fifty_turn == 0,
                game.gamestate == GameState::Active,
                forall|a: int, b: int|
                    in_bounds_xy(a, b) ==> (#[trigger] board_sq(game.matrix, a, b)).piece == (
                    if b < y {
                        spec_layout_piece(toks, a, b)
                    } else {
                        None
                    }),
            decreases 8 - y,
        {
            let mut x: usize = 0;
            while x < 8
                invariant
                    0 <= x <= 8,
                    y < 8,
                    pieces@.len() == 64,
                    forall|j: int| 0 <= j < 64 ==> spec_block_piece(#[trigger] toks[j]) == Some(
                        pieces@[j],
                    ),
                    game.wf(),
                    game.player == Team::White,
                    game.history@.len() == 0,
                    game.fifty_turn == 0,
                    game.gamestate == GameState::Active,
                    forall|a: int, b: int|
                        in_bounds_xy(a, b) ==> (#[trigger] board_sq(game.matrix, a, b)).piece == (
                        if b < y || (b == y && a < x) {
                            spec_layout_piece(toks, a, b)
                        } else {
                            None
                        }),
                decreases 8 - x,
            {
                let idx = 8 * (7 - y) + x;
                let piece = pieces[idx];
                let ghost before = game.matrix;
                game.set_piece(x, y, piece);
                proof {
                    lemma_upd_piece_keeps_coords(before, x as int, y as int, piece);
                    assert forall|a: int, b: int| in_bounds_xy(a, b) implies (#[trigger] board_sq(
                        game.matrix,
                        a,
                        b,
                    )).piece == (if b < y || (b == y && a < x + 1) {
                        spec_layout_piece(toks, a, b)
                    } else {
                        None
                    }) by {
                        lemma_upd_piece(before, x as int, y as int, piece, a, b);
                    }
                }
                x += 1;
            }
            y += 1;
        }

        // Find each team's king, keeping the last in scan order.
        let mut white_at: Option<(usize, usize)> = None;
        let mut black_at: Option<(usize, usize)> = None;
        let mut n: usize = 0;
        while n < 64
            invariant
                0 <= n <= 64,
                pieces@.len() == 64,
                forall|j: int| 0 <= j < 64 ==> spec_block_piece(#[trigger] toks[j]) == Some(
                    pieces@[j],
                ),
                match white_at {
                    Some((x, y)) => x < 8 && y < 8 && spec_last_layout_king(
                        toks,
                        Team::White,
                        n as nat,
                    ) == Some((x as int, y as int)),
                    None => spec_last_layout_king(toks, Team::White, n as nat) is None,
                },
                match black_at {
                    Some((x, y)) => x < 8 && y < 8 && spec_last_layout_king(
                        toks,
                        Team::Black,
                        n as nat,
                    ) == Some((x as int, y as int)),
                    None => spec_last_layout_king(toks, Team::Black, n as nat) is None,
                },
            decreases 64 - n,
        {
            let y = n / 8;
            let x = n % 8;
            let piece = pieces[8 * (7 - y) + x];
            match piece {
                Some(p) => {
                    if p.rank == Rank::King {
                        match p.team {
                            Team::White => {
                                white_at = Some((x, y));
                            },
                            Team::Black => {
                                black_at = Some((x, y));
                            },
                        }
                    }
                },
                None => {},
            }
            n += 1;
        }
        let (wx, wy) = match white_at {
            Some(c) => c,
            None => {
                return Err(String::from_str("layout holds no white king"));
            },
        };
        let (bx, by) = match black_at {
            Some(c) => c,
            None => {
                return Err(String::from_str("layout holds no black king"));
            },
        };
        game.white_king_square = game.matrix[wx][wy];
        game.black_king_square = game.matrix[bx][by];
        game.calculate_game_state();
        Ok(game)
    }
}

impl Piece {
    /// The glyph an external renderer shows for this piece.
    pub fn unicode(&self) -> (r: &'static str)
        ensures
            r@ == spec_unicode(*self),
    {
        match self.rank {
            Rank::Pawn => {
                match self.team {
                    Team::White => {
                        proof {
                            reveal_strlit("\u{265F}\u{FE0E}");
                        }
                        "\u{265F}\u{FE0E}"
                    },
                    Team::Black => {
                        proof {
                            reveal_strlit("\u{2659}");
                        }
                        "\u{2659}"
                    },
                }
            },
            Rank::Rook => {
                match self.team {
                    Team::White => {
                        proof {
                            reveal_strlit("\u{265C}");
                        }
                        "\u{265C}"
                    },
                    Team::Black => {
                        proof {
                            reveal_strlit("\u{2656}");
                        }
                        "\u{2656}"
                    },
                }
            },
            Rank::Knight => {
                match self.team {
                    Team::White => {
                        proof {
                            reveal_strlit("\u{265E}");
                        }
                        "\u{265E}"
                    },
                    Team::Black => {
                        proof {
                            reveal_strlit("\u{2658}");
                        }
                        "\u{2658}"
                    },
                }
            },
            Rank::Bishop => {
                match self.team {
                    Team::White => {
                        proof {
                            reveal_strlit("\u{265D}");
                        }
                        "\u{265D}"
                    },
                    Team::Black => {
                        proof {
                            reveal_strlit("\u{2657}");
                        }
                        "\u{2657}"
                    },
                }
            },
            Rank::Queen => {
                match self.team {
                    Team::White => {
                        proof {
                            reveal_strlit("\u{265B}");
                        }
                        "\u{265B}"
                    },
                    Team::Black => {
                        proof {
                            reveal_strlit("\u{2655}");
                        }
                        "\u{2655}"
                    },
                }
            },
            Rank::King => {
                match self.team {
                    Team::White => {
                        proof {
                            reveal_strlit("\u{265A}");
                        }
                        "\u{265A}"
                    },
                    Team::Black => {
                        proof {
                            reveal_strlit("\u{2654}");
                        }
                        "\u{2654}"
                    },
                }
            },
        }
    }
}

/// The glyph of each piece: the filled set for White, the outlined set for
/// Black, the white pawn carrying a variation selector.
pub open spec fn spec_unicode(p: Piece) -> Seq<char> {
    match p.rank {
        Rank::Pawn => match p.team {
            Team::White => seq!['\u{265F}', '\u{FE0E}'],
            Team::Black => seq!['\u{2659}'],
        },
        Rank::Rook => match p.team {
            Team::White => seq!['\u{265C}'],
            Team::Black => seq!['\u{2656}'],
        },
        Rank::Knight => match p.team {
            Team::White => seq!['\u{265E}'],
            Team::Black => seq!['\u{2658}'],
        },
        Rank::Bishop => match p.team {
            Team::White => seq!['\u{265D}'],
            Team::Black => seq!['\u{2657}'],
        },
        Rank::Queen => match p.team {
            Team::White => seq!['\u{265B}'],
            Team::Black => seq!['\u{2655}'],
        },
        Rank::King => match p.team {
            Team::White => seq!['\u{265A}'],
            Team::Black => seq!['\u{2654}'],
        },
    }
}

impl Default for Game {
    /// The canonical starting position, as [`Game::new`] builds it.
    fn default() -> (g: Game)
        ensures
            g.wf(),
            g.player == Team::White,
            g.history@.len() == 0,
            g.fifty_turn == 0,
            forall|x: int, y: int|
                in_bounds_xy(x, y) ==> (#[trigger] board_sq(g.matrix, x, y)) == (Square {
                    piece: initial_piece(x, y),
                    coordinate: (x as isize, y as isize),
                }),
    {
        Game::new()
    }
}

/// Two games with the same history contents agree on whether any piece has
/// moved, whatever vector holds the history.
pub proof fn lemma_unmoved_same_fields(g1: Game, g2: Game, square: Square)
    requires
        g1.history@ == g2.history@,
    ensures
        g1.spec_unmoved(square) == g2.spec_unmoved(square),
{
    match square.piece {
        Some(p) => {
            if p.rank != Rank::Pawn {
                assert forall|i: int|
                    0 <= i < g1.history@.len() implies (#[trigger] g1.history@[i]).from.coordinate
                    == g2.history@[i].from.coordinate by {}
            }
        },
        None => {},
    }
}

/// Two games with the same board, side to move, caches and history contents
/// have the same legal moves overall.
proof fn lemma_all_moves_upto_same_fields(g1: Game, g2: Game, n: nat)
    requires
        g1.matrix == g2.matrix,
        g1.player == g2.player,
        g1.white_king_square == g2.white_king_square,
        g1.black_king_square == g2.black_king_square,
        g1.history@ == g2.history@,
        n <= 64,
    ensures
        spec_all_moves_upto(g1, n) == spec_all_moves_upto(g2, n),
    decreases n,
{
    if n > 0 {
        lemma_all_moves_upto_same_fields(g1, g2, (n - 1) as nat);
        let x = ((n - 1) as int) / 8;
        let y = ((n - 1) as int) % 8;
        moves::lemma_legal_same_fields(g1, g2, board_sq(g1.matrix, x, y));
        assert(spec_square_moves(g1, x, y) == spec_square_moves(g2, x, y));
    }
}

/// See [`lemma_all_moves_upto_same_fields`], for the whole board.
pub proof fn lemma_all_moves_same_fields(g1: Game, g2: Game)
    requires
        g1.matrix == g2.matrix,
        g1.player == g2.player,
        g1.white_king_square == g2.white_king_square,
        g1.black_king_square == g2.black_king_square,
        g1.history@ == g2.history@,
    ensures
        spec_all_moves(g1) == spec_all_moves(g2),
{
    lemma_all_moves_upto_same_fields(g1, g2, 64);
}

/// Two games that agree on every field up to history contents derive the
/// same state and the same counter.
pub proof fn lemma_state_after_same_fields(g1: Game, g2: Game)
    requires
        g1.matrix == g2.matrix,
        g1.player == g2.player,
        g1.white_king_square == g2.white_king_square,
        g1.black_king_square == g2.black_king_square,
        g1.history@ == g2.history@,
        g1.fifty_turn == g2.fifty_turn,
    ensures
        spec_state_after(g1) == spec_state_after(g2),
        spec_fifty_final(g1) == spec_fifty_final(g2),
{
    lemma_all_moves_same_fields(g1, g2);
    assert(spec_fifty_after(g1) == spec_fifty_after(g2));
}

/// Two boards that agree square by square are the same board.
pub proof fn lemma_matrix_determined(m1: [[Square; 8]; 8], m2: [[Square; 8]; 8])
    requires
        forall|x: int, y: int|
            in_bounds_xy(x, y) ==> #[trigger] board_sq(m1, x, y) == board_sq(m2, x, y),
    ensures
        m1 == m2,
{
    broadcast use vstd::array::group_array_axioms;

    assert forall|x: int| 0 <= x < 8 implies #[trigger] m1@[x] == m2@[x] by {
        assert forall|y: int| 0 <= y < 8 implies #[trigger] m1@[x]@[y] == m2@[x]@[y] by {
            assert(board_sq(m1, x, y) == board_sq(m2, x, y));
        }
        assert(m1@[x] =~= m2@[x]);
    }
    assert(m1 =~= m2);
}

/// What a freshly constructed game looks like: the canonical starting
/// position, White to move, an empty history, a zero counter, both king
/// caches on their home squares, and the derived state already computed.
pub open spec fn spec_initial_game(g: Game) -> bool {
    &&& g.wf()
    &&& g.player == Team::White
    &&& g.history@.len() == 0
    &&& g.fifty_turn == 0
    &&& forall|x: int, y: int|
        in_bounds_xy(x, y) ==> (#[trigger] board_sq(g.matrix, x, y)) == (Square {
            piece: initial_piece(x, y),
            coordinate: (x as isize, y as isize),
        })
    &&& g.white_king_square == board_sq(g.matrix, 4, 0)
    &&& g.black_king_square == board_sq(g.matrix, 4, 7)
    &&& g.gamestate == spec_state_after(Game { gamestate: GameState::Active, ..g })
}

/// How one performed ply relates the position before it to the position
/// after it: the history grows by the action, the board and the mover's
/// king cache change as the action dictates (a promotion replaces the pawn
/// by the chosen rank and leaves both caches alone), the turn passes, and
/// the state and counter are re-derived for the new position.  This is the
/// postcondition of [`Game::perform_action`] and
/// [`Game::perform_promotion`], as a relation.
pub open spec fn spec_performed(g: Game, a: Action, pr: Option<Rank>, g2: Game) -> bool {
    &&& g2.history@ == g.history@.push(a)
    &&& g2.player == spec_next_player(g.player)
    &&& match pr {
        None => {
            &&& g2.matrix == spec_matrix_after(g.matrix, g.player, a)
            &&& g2.white_king_square == spec_game_after(g, a).white_king_square
            &&& g2.black_king_square == spec_game_after(g, a).black_king_square
        },
        Some(rk) => {
            &&& g2.matrix == upd_piece(
                upd_piece(g.matrix, a.from.coordinate.0 as int, a.from.coordinate.1 as int, None),
                a.to.coordinate.0 as int,
                a.to.coordinate.1 as int,
                Some(Piece { team: g.player, rank: rk }),
            )
            &&& g2.white_king_square == g.white_king_square
            &&& g2.black_king_square == g.black_king_square
        },
    }
    &&& {
        let mid = Game { gamestate: g.gamestate, fifty_turn: g.fifty_turn, ..g2 };
        &&& g2.gamestate == spec_state_after(mid)
        &&& g2.fifty_turn as int == spec_fifty_final(mid)
    }
}

/// The king caches point at squares of the board that really hold the
/// matching kings: the invariant the caches maintain, at the level of what
/// the board holds (a cached snapshot's own piece field may predate the
/// move that put the king there; only its coordinate is ever read).
pub open spec fn spec_kings_tracked(g: Game) -> bool {
    &&& board_sq(
        g.matrix,
        g.white_king_square.coordinate.0 as int,
        g.white_king_square.coordinate.1 as int,
    ).piece == Some(Piece { team: Team::White, rank: Rank::King })
    &&& board_sq(
        g.matrix,
        g.black_king_square.coordinate.0 as int,
        g.black_king_square.coordinate.1 as int,
    ).piece == Some(Piece { team: Team::Black, rank: Rank::King })
}

/// Performing an action keeps both king caches on their kings, as long as
/// the action is genuine: its origin snapshot matches the board, it moves a
/// piece of the side to move, it captures no king, and its special-move
/// geometry stands on the squares generation guarantees (the en passant
/// victim is a pawn; castling moves a king over empty squares with the rook
/// in its corner).  Every action the generator emits is of this shape.
pub proof fn lemma_move_keeps_kings_tracked(g: Game, a: Action)
    requires
        g.wf(),
        spec_kings_tracked(g),
        spec_action_sane(g, a),
        a.from == board_sq(g.matrix, a.from.coordinate.0 as int, a.from.coordinate.1 as int),
        a.from.piece matches Some(p) && p.team == g.player,
        match board_sq(g.matrix, a.to.coordinate.0 as int, a.to.coordinate.1 as int).piece {
            Some(p) => p.rank != Rank::King,
            None => true,
        },
        a.action_type == ActionType::Promotion ==> (a.from.piece matches Some(p) && p.rank
            == Rank::Pawn),
        a.action_type == ActionType::Enpassant ==> (a.from.piece matches Some(p) && p.rank
            == Rank::Pawn) && (board_sq(
            g.matrix,
            a.to.coordinate.0 as int,
            a.to.coordinate.1 as int - moves::spec_team_dir(g.player),
        ).piece matches Some(p) && p.rank == Rank::Pawn),
        a.action_type == ActionType::Castling ==> (a.from.piece matches Some(p) && p.rank
            == Rank::King) && (if a.to.coordinate.0 > a.from.coordinate.0 {
            &&& board_sq(g.matrix, a.from.coordinate.0 as int + 1, a.from.coordinate.1 as int).piece
                is None
            &&& board_sq(g.matrix, 7, a.from.coordinate.1 as int).piece matches Some(p) && p.rank
                == Rank::Rook
        } else {
            &&& board_sq(g.matrix, a.from.coordinate.0 as int - 1, a.from.coordinate.1 as int).piece
                is None
            &&& board_sq(g.matrix, 0, a.from.coordinate.1 as int).piece matches Some(p) && p.rank
                == Rank::Rook
        }),
    ensures
        spec_kings_tracked(spec_game_after(g, a)),
{
    let fx = a.from.coordinate.0 as int;
    let fy = a.from.coordinate.1 as int;
    let tx = a.to.coordinate.0 as int;
    let ty = a.to.coordinate.1 as int;
    let m = g.matrix;
    let moving = board_sq(m, fx, fy).piece;
    let own = g.spec_king_square(g.player);
    let ox = own.coordinate.0 as int;
    let oy = own.coordinate.1 as int;
    let other = g.spec_king_square(spec_next_player(g.player));
    let ex = other.coordinate.0 as int;
    let ey = other.coordinate.1 as int;
    lemma_game_after_wf(g, a);
    // The opponent's king stands on neither endpoint: the origin holds the
    // mover's own piece and the destination holds no king.
    assert(!(ex == fx && ey == fy));
    assert(!(ex == tx && ey == ty));
    match a.action_type {
        ActionType::Regular => {
            let m1 = upd_piece(m, tx, ty, moving);
            lemma_upd_piece(m, tx, ty, moving, tx, ty);
            lemma_upd_piece(m1, fx, fy, None, tx, ty);
            lemma_upd_piece(m, tx, ty, moving, ex, ey);
            lemma_upd_piece(m1, fx, fy, None, ex, ey);
            if a.from.piece matches Some(p) && p.rank == Rank::King {
                // The cache follows the king onto its destination.
            } else {
                // The king stayed put: its square is neither endpoint.
                assert(!(ox == fx && oy == fy));
                assert(!(ox == tx && oy == ty));
                lemma_upd_piece(m, tx, ty, moving, ox, oy);
                lemma_upd_piece(m1, fx, fy, None, ox, oy);
            }
        },
        ActionType::Promotion => {
            let m1 = upd_piece(m, tx, ty, moving);
            lemma_upd_piece(m, tx, ty, moving, ex, ey);
            lemma_upd_piece(m1, fx, fy, None, ex, ey);
            assert(!(ox == fx && oy == fy));
            assert(!(ox == tx && oy == ty));
            lemma_upd_piece(m, tx, ty, moving, ox, oy);
            lemma_upd_piece(m1, fx, fy, None, ox, oy);
        },
        ActionType::Enpassant => {
            let cy = ty - moves::spec_team_dir(g.player);
            let m1 = upd_piece(m, tx, ty, moving);
            let m2 = upd_piece(m1, fx, fy, None);
            // Neither king stands on the captured pawn's square.
            assert(!(ex == tx && ey == cy));
            assert(!(ox == tx && oy == cy));
            assert(!(ox == fx && oy == fy));
            assert(!(ox == tx && oy == ty));
            lemma_upd_piece(m, tx, ty, moving, ex, ey);
            lemma_upd_piece(m1, fx, fy, None, ex, ey);
            lemma_upd_piece(m2, tx, cy, None, ex, ey);
            lemma_upd_piece(m, tx, ty, moving, ox, oy);
            lemma_upd_piece(m1, fx, fy, None, ox, oy);
            lemma_upd_piece(m2, tx, cy, None, ox, oy);
        },
        ActionType::Castling => {
            if tx > fx {
                let rook = board_sq(m, 7, fy).piece;
                let m1 = upd_piece(m, tx, ty, moving);
                let m2 = upd_piece(m1, fx, fy, None);
                let m3 = upd_piece(m2, fx + 1, fy, rook);
                // The landing square ends up holding the king.
                lemma_upd_piece(m, tx, ty, moving, tx, ty);
                lemma_upd_piece(m1, fx, fy, None, tx, ty);
                lemma_upd_piece(m2, fx + 1, fy, rook, tx, ty);
                lemma_upd_piece(m3, 7, fy, None, tx, ty);
                // The opponent's king stands on none of the four squares.
                assert(!(ex == fx + 1 && ey == fy));
                assert(!(ex == 7 && ey == fy));
                lemma_upd_piece(m, tx, ty, moving, ex, ey);
                lemma_upd_piece(m1, fx, fy, None, ex, ey);
                lemma_upd_piece(m2, fx + 1, fy, rook, ex, ey);
                lemma_upd_piece(m3, 7, fy, None, ex, ey);
            } else {
                let rook = board_sq(m, 0, fy).piece;
                let m1 = upd_piece(m, tx, ty, moving);
                let m2 = upd_piece(m1, fx, fy, None);
                let m3 = upd_piece(m2, fx - 1, fy, rook);
                lemma_upd_piece(m, tx, ty, moving, tx, ty);
                lemma_upd_piece(m1, fx, fy, None, tx, ty);
                lemma_upd_piece(m2, fx - 1, fy, rook, tx, ty);
                lemma_upd_piece(m3, 0, fy, None, tx, ty);
                assert(!(ex == fx - 1 && ey == fy));
                assert(!(ex == 0 && ey == fy));
                lemma_upd_piece(m, tx, ty, moving, ex, ey);
                lemma_upd_piece(m1, fx, fy, None, ex, ey);
                lemma_upd_piece(m2, fx - 1, fy, rook, ex, ey);
                lemma_upd_piece(m3, 0, fy, None, ex, ey);
            }
        },
    }
}

/// A fresh vector holding the same actions.
fn copy_history(history: &Vec<Action>) -> (r: Vec<Action>)
    ensures
        r@ == history@,
{
    let mut out: Vec<Action> = Vec::new();
    let mut i: usize = 0;
    while i < history.len()
        invariant
            0 <= i <= history@.len(),
            out@ == history@.take(i as int),
        decreases history@.len() - i,
    {
        out.push(history[i]);
        proof {
            assert(out@ =~= history@.take(i + 1 as int));
        }
        i += 1;
    }
    proof {
        assert(history@.take(history@.len() as int) =~= history@);
    }
    out
}

impl Clone for Game {
    /// A deep copy: every field is preserved, the history action by action.
    fn clone(&self) -> (res: Game)
        ensures
            res.gamestate == self.gamestate,
            res.matrix == self.matrix,
            res.player == self.player,
            res.history@ == self.history@,
            res.white_king_square == self.white_king_square,
            res.black_king_square == self.black_king_square,
            res.fifty_turn == self.fifty_turn,
    {
        Game {
            gamestate: self.gamestate,
            matrix: self.matrix,
            player: self.player,
            history: copy_history(&self.history),
            white_king_square: self.white_king_square,
            black_king_square: self.black_king_square,
            fifty_turn: self.fifty_turn,
        }
    }
}

/// Free form of [`Game::unmoved`], matching the module-level helpers.
pub fn unmoved(game: &Game, from_square: Square) -> (r: bool)
    requires
        from_square.piece is Some,
    ensures
        r == game.spec_unmoved(from_square),
{
    game.unmoved(from_square)
}

} // verus!
