//! Move generation: pseudo-legal actions per piece rank, the attack test
//! built from the same generators, special moves, and the legality filter
//! that rejects actions leaving the mover's king attacked.

use vstd::prelude::*;

use crate::game::{
    board_sq, in_bounds_xy, not_out_of_bounds, not_same_team, spec_action_sane,
    spec_in_check_after, spec_matrix_after, spec_not_same_team, Game, Piece, Rank, Square, Team,
};

verus! {

/// How an action must be interpreted when it is performed.
#[derive(Debug, Copy, Clone, PartialEq, Eq, Structural)]
pub enum ActionType {
    Regular,
    Enpassant,
    Promotion,
    Castling,
}

/// One move: snapshots of the origin and destination squares taken before the
/// move, plus the kind tag.  The `to` snapshot keeps the destination's prior
/// occupant; for an en passant action the captured pawn stands beside, not on,
/// the destination.
#[derive(Debug, Copy, Clone, PartialEq)]
pub struct Action {
    pub from: Square,
    pub to: Square,
    pub action_type: ActionType,
}

/// The forward direction of a team's pawns.
pub open spec fn spec_team_dir(team: Team) -> int {
    match team {
        Team::White => 1,
        Team::Black => -1,
    }
}

/// The rank index on which a team's pawns promote.
pub open spec fn spec_promo_row(team: Team) -> int {
    match team {
        Team::White => 7,
        Team::Black => 0,
    }
}

/// Inspects one candidate destination for the side to move: an action when
/// the square is on the board and empty (not yet colliding) or holds an enemy
/// piece (a capture, colliding), nothing when it is off the board or friendly.
pub open spec fn spec_probe(
    m: [[Square; 8]; 8],
    player: Team,
    from: Square,
    x: int,
    y: int,
) -> (Option<Action>, bool) {
    if !in_bounds_xy(x, y) {
        (None, true)
    } else {
        let to = board_sq(m, x, y);
        if to.piece is None {
            (Some(Action { from, to, action_type: ActionType::Regular }), false)
        } else if spec_not_same_team(player, to) {
            (Some(Action { from, to, action_type: ActionType::Regular }), true)
        } else {
            (None, true)
        }
    }
}

/// A singleton or empty sequence from an optional action.
pub open spec fn opt_seq(o: Option<Action>) -> Seq<Action> {
    match o {
        Some(a) => seq![a],
        None => Seq::empty(),
    }
}

/// The actions of a sliding piece along one direction, starting `step`
/// squares out: step outward until leaving the board, stopping short of a
/// friendly piece and just after capturing an enemy one.
pub open spec fn spec_ray_moves(
    m: [[Square; 8]; 8],
    player: Team,
    from: Square,
    dx: int,
    dy: int,
    step: nat,
) -> Seq<Action>
    decreases 9 - step,
{
    if step > 8 {
        Seq::empty()
    } else {
        let x = from.coordinate.0 as int + dx * step;
        let y = from.coordinate.1 as int + dy * step;
        match spec_probe(m, player, from, x, y) {
            (Some(a), false) => seq![a] + spec_ray_moves(m, player, from, dx, dy, (step + 1) as nat),
            (Some(a), true) => seq![a],
            (None, _) => Seq::empty(),
        }
    }
}

/// The sliding moves along the two axes.
pub open spec fn spec_straight_moves(m: [[Square; 8]; 8], player: Team, from: Square) -> Seq<
    Action,
> {
    spec_ray_moves(m, player, from, -1, 0, 1) + spec_ray_moves(m, player, from, 0, 1, 1)
        + spec_ray_moves(m, player, from, 1, 0, 1) + spec_ray_moves(m, player, from, 0, -1, 1)
}

/// The sliding moves along the two diagonals.
pub open spec fn spec_diagonal_moves(m: [[Square; 8]; 8], player: Team, from: Square) -> Seq<
    Action,
> {
    spec_ray_moves(m, player, from, -1, 1, 1) + spec_ray_moves(m, player, from, -1, -1, 1)
        + spec_ray_moves(m, player, from, 1, 1, 1) + spec_ray_moves(m, player, from, 1, -1, 1)
}

/// A single application of one offset, as the knight and the king use it.
pub open spec fn spec_step_move(
    m: [[Square; 8]; 8],
    player: Team,
    from: Square,
    dx: int,
    dy: int,
) -> Seq<Action> {
    opt_seq(
        spec_probe(
            m,
            player,
            from,
            from.coordinate.0 as int + dx,
            from.coordinate.1 as int + dy,
        ).0,
    )
}

/// The rook's pseudo-legal moves.
pub open spec fn spec_rook_moves(m: [[Square; 8]; 8], player: Team, from: Square) -> Seq<Action> {
    spec_straight_moves(m, player, from)
}

/// The bishop's pseudo-legal moves.
pub open spec fn spec_bishop_moves(m: [[Square; 8]; 8], player: Team, from: Square) -> Seq<Action> {
    spec_diagonal_moves(m, player, from)
}

/// The queen's pseudo-legal moves: diagonals first, then the axes.
pub open spec fn spec_queen_moves(m: [[Square; 8]; 8], player: Team, from: Square) -> Seq<Action> {
    spec_diagonal_moves(m, player, from) + spec_straight_moves(m, player, from)
}

/// The knight's eight jumps.
pub open spec fn spec_knight_moves(m: [[Square; 8]; 8], player: Team, from: Square) -> Seq<Action> {
    spec_step_move(m, player, from, -2, 1) + spec_step_move(m, player, from, -1, 2)
        + spec_step_move(m, player, from, 1, 2) + spec_step_move(m, player, from, 2, 1)
        + spec_step_move(m, player, from, 2, -1) + spec_step_move(m, player, from, 1, -2)
        + spec_step_move(m, player, from, -1, -2) + spec_step_move(m, player, from, -2, -1)
}

/// The king's eight single steps (castling is added separately).
pub open spec fn spec_king_step_moves(m: [[Square; 8]; 8], player: Team, from: Square) -> Seq<
    Action,
> {
    spec_step_move(m, player, from, -1, 1) + spec_step_move(m, player, from, -1, -1)
        + spec_step_move(m, player, from, 1, 1) + spec_step_move(m, player, from, 1, -1)
        + spec_step_move(m, player, from, -1, 0) + spec_step_move(m, player, from, 0, 1)
        + spec_step_move(m, player, from, 1, 0) + spec_step_move(m, player, from, 0, -1)
}

/// One diagonal-forward pawn capture, tagged as a promotion on the far rank.
pub open spec fn spec_pawn_attack_at(
    m: [[Square; 8]; 8],
    player: Team,
    from: Square,
    dx: int,
) -> Seq<Action> {
    let x = from.coordinate.0 as int + dx;
    let y = from.coordinate.1 as int + spec_team_dir(player);
    if in_bounds_xy(x, y) && spec_not_same_team(player, board_sq(m, x, y)) {
        seq![
            Action {
                from,
                to: board_sq(m, x, y),
                action_type: if y == spec_promo_row(player) {
                    ActionType::Promotion
                } else {
                    ActionType::Regular
                },
            },
        ]
    } else {
        Seq::empty()
    }
}

/// The pawn's two capture offsets, emitted only onto enemy pieces.
pub open spec fn spec_pawn_attack_moves(m: [[Square; 8]; 8], player: Team, from: Square) -> Seq<
    Action,
> {
    spec_pawn_attack_at(m, player, from, 1) + spec_pawn_attack_at(m, player, from, -1)
}

/// The pawn's forward single step onto an empty square.
pub open spec fn spec_pawn_forward_move(g: Game, from: Square) -> Seq<Action> {
    let x = from.coordinate.0 as int;
    let y = from.coordinate.1 as int + spec_team_dir(g.player);
    if in_bounds_xy(x, y) && board_sq(g.matrix, x, y).piece is None {
        seq![
            Action {
                from,
                to: board_sq(g.matrix, x, y),
                action_type: if y == spec_promo_row(g.player) {
                    ActionType::Promotion
                } else {
                    ActionType::Regular
                },
            },
        ]
    } else {
        Seq::empty()
    }
}

/// The pawn's double step from its unmoved rank, needing both the intervening
/// and the destination square empty.
pub open spec fn spec_pawn_double_move(g: Game, from: Square) -> Seq<Action> {
    let x = from.coordinate.0 as int;
    let y1 = from.coordinate.1 as int + spec_team_dir(g.player);
    let y2 = from.coordinate.1 as int + 2 * spec_team_dir(g.player);
    if g.spec_unmoved(from) && in_bounds_xy(x, y1) && in_bounds_xy(x, y2) && board_sq(
        g.matrix,
        x,
        y1,
    ).piece is None && board_sq(g.matrix, x, y2).piece is None {
        seq![Action { from, to: board_sq(g.matrix, x, y2), action_type: ActionType::Regular }]
    } else {
        Seq::empty()
    }
}

/// One en passant capture: eligible only when the opponent's immediately
/// preceding action was a pawn double step landing on the square beside this
/// pawn.  The destination is the empty square behind that pawn.
pub open spec fn spec_enpassant_at(g: Game, from: Square, dx: int) -> Seq<Action> {
    let x = from.coordinate.0 as int + dx;
    let y = from.coordinate.1 as int;
    let yto = y + spec_team_dir(g.player);
    if {
        &&& in_bounds_xy(x, y)
        &&& in_bounds_xy(x, yto)
        &&& board_sq(g.matrix, x, yto).piece is None
        &&& spec_not_same_team(g.player, board_sq(g.matrix, x, y))
        &&& board_sq(g.matrix, x, y).piece matches Some(p) && p.rank == Rank::Pawn
        &&& g.history@.len() > 0
        &&& {
            let last = g.history@.last();
            &&& last.from.piece matches Some(q) && q.rank == Rank::Pawn
            &&& last.to.coordinate.0 as int == x
            &&& last.to.coordinate.1 as int == y
            &&& (last.from.coordinate.1 as int - last.to.coordinate.1 as int == 2
                || last.to.coordinate.1 as int - last.from.coordinate.1 as int == 2)
        }
    } {
        seq![Action { from, to: board_sq(g.matrix, x, yto), action_type: ActionType::Enpassant }]
    } else {
        Seq::empty()
    }
}

/// The pawn's pseudo-legal moves: forward step, double step, captures, then
/// en passant on either side.
pub open spec fn spec_pawn_moves(g: Game, from: Square) -> Seq<Action> {
    spec_pawn_forward_move(g, from) + spec_pawn_double_move(g, from) + spec_pawn_attack_moves(
        g.matrix,
        g.player,
        from,
    ) + spec_enpassant_at(g, from, -1) + spec_enpassant_at(g, from, 1)
}

/// Whether an action captures a piece of the given rank (the piece standing
/// on its destination snapshot).
pub open spec fn spec_capture_of(a: Action, rank: Rank) -> bool {
    match a.to.piece {
        Some(p) => p.rank == rank,
        None => false,
    }
}

/// Whether some action in the sequence captures a piece of the given rank.
pub open spec fn spec_captures_rank(actions: Seq<Action>, rank: Rank) -> bool {
    exists|i: int| 0 <= i < actions.len() && spec_capture_of(#[trigger] actions[i], rank)
}

/// Whether the square is attacked from `player`'s point of view: some enemy
/// piece would be captured by re-running the bishop, rook, queen, knight or
/// pawn-capture generator from this square, with the capture's rank matching
/// the generator that found it.
pub open spec fn spec_square_attacked(m: [[Square; 8]; 8], player: Team, square: Square) -> bool {
    ||| spec_captures_rank(spec_bishop_moves(m, player, square), Rank::Bishop)
    ||| spec_captures_rank(spec_rook_moves(m, player, square), Rank::Rook)
    ||| spec_captures_rank(spec_queen_moves(m, player, square), Rank::Queen)
    ||| spec_captures_rank(spec_knight_moves(m, player, square), Rank::Knight)
    ||| spec_captures_rank(spec_pawn_attack_moves(m, player, square), Rank::Pawn)
}

/// Inspects one candidate destination; see [`spec_probe`].
fn probe_move(game: &Game, from: Square, x: isize, y: isize) -> (r: (Option<Action>, bool))
    requires
        game.wf(),
        -16 <= x <= 16,
        -16 <= y <= 16,
    ensures
        r == spec_probe(game.matrix, game.player, from, x as int, y as int),
{
    if !not_out_of_bounds(x, y) {
        return (None, true);
    }
    let to = game.matrix[x as usize][y as usize];
    if to.piece.is_none() {
        (Some(Action { from, to, action_type: ActionType::Regular }), false)
    } else if not_same_team(game.player, to) {
        (Some(Action { from, to, action_type: ActionType::Regular }), true)
    } else {
        (None, true)
    }
}

/// Walks one sliding direction outward from `from`, starting `step` squares
/// away; see [`spec_ray_moves`].
fn ray_moves(game: &Game, from: Square, dx: isize, dy: isize, step: usize) -> (r: Vec<Action>)
    requires
        game.wf(),
        in_bounds_xy(from.coordinate.0 as int, from.coordinate.1 as int),
        -1 <= dx <= 1,
        -1 <= dy <= 1,
        !(dx == 0 && dy == 0),
        1 <= step <= 8,
    ensures
        r@ == spec_ray_moves(game.matrix, game.player, from, dx as int, dy as int, step as nat),
    decreases 9 - step,
{
    proof {
        if dx == -1 {
            assert(dx as int * step as int == -(step as int));
        }
        if dx == 0 {
            assert(dx as int * step as int == 0);
        }
        if dx == 1 {
            assert(dx as int * step as int == step as int);
        }
        if dy == -1 {
            assert(dy as int * step as int == -(step as int));
        }
        if dy == 0 {
            assert(dy as int * step as int == 0);
        }
        if dy == 1 {
            assert(dy as int * step as int == step as int);
        }
    }
    let x = from.coordinate.0 + dx * (step as isize);
    let y = from.coordinate.1 + dy * (step as isize);
    let (hit, collided) = probe_move(game, from, x, y);
    match hit {
        Some(a) => {
            if collided {
                let mut out: Vec<Action> = Vec::new();
                out.push(a);
                proof {
                    assert(out@ =~= spec_ray_moves(
                        game.matrix,
                        game.player,
                        from,
                        dx as int,
                        dy as int,
                        step as nat,
                    ));
                }
                out
            } else {
                proof {
                    assert(in_bounds_xy(x as int, y as int));
                }
                let mut out: Vec<Action> = Vec::new();
                out.push(a);
                let mut rest = ray_moves(game, from, dx, dy, step + 1);
                out.append(&mut rest);
                proof {
                    assert(out@ =~= spec_ray_moves(
                        game.matrix,
                        game.player,
                        from,
                        dx as int,
                        dy as int,
                        step as nat,
                    ));
                }
                out
            }
        },
        None => {
            let out: Vec<Action> = Vec::new();
            proof {
                assert(out@ =~= spec_ray_moves(
                    game.matrix,
                    game.player,
                    from,
                    dx as int,
                    dy as int,
                    step as nat,
                ));
            }
            out
        },
    }
}

/// The sliding moves along the four axis directions.
fn straight_move(game: &Game, start_square: Square) -> (r: Vec<Action>)
    requires
        game.wf(),
        in_bounds_xy(start_square.coordinate.0 as int, start_square.coordinate.1 as int),
    ensures
        r@ == spec_straight_moves(game.matrix, game.player, start_square),
{
    let mut out = ray_moves(game, start_square, -1, 0, 1);
    let mut v2 = ray_moves(game, start_square, 0, 1, 1);
    let mut v3 = ray_moves(game, start_square, 1, 0, 1);
    let mut v4 = ray_moves(game, start_square, 0, -1, 1);
    out.append(&mut v2);
    out.append(&mut v3);
    out.append(&mut v4);
    proof {
        assert(out@ =~= spec_straight_moves(game.matrix, game.player, start_square));
    }
    out
}

/// The sliding moves along the four diagonal directions.
fn diagonal_move(game: &Game, start_square: Square) -> (r: Vec<Action>)
    requires
        game.wf(),
        in_bounds_xy(start_square.coordinate.0 as int, start_square.coordinate.1 as int),
    ensures
        r@ == spec_diagonal_moves(game.matrix, game.player, start_square),
{
    let mut out = ray_moves(game, start_square, -1, 1, 1);
    let mut v2 = ray_moves(game, start_square, -1, -1, 1);
    let mut v3 = ray_moves(game, start_square, 1, 1, 1);
    let mut v4 = ray_moves(game, start_square, 1, -1, 1);
    out.append(&mut v2);
    out.append(&mut v3);
    out.append(&mut v4);
    proof {
        assert(out@ =~= spec_diagonal_moves(game.matrix, game.player, start_square));
    }
    out
}

/// Applies one offset once and pushes the action it yields, if any.
fn push_step(game: &Game, from: Square, dx: isize, dy: isize, out: &mut Vec<Action>)
    requires
        game.wf(),
        -2 <= dx <= 2,
        -2 <= dy <= 2,
        -8 <= from.coordinate.0 <= 8,
        -8 <= from.coordinate.1 <= 8,
    ensures
        final(out)@ == old(out)@ + spec_step_move(game.matrix, game.player, from, dx as int, dy as int),
{
    let (hit, _) = probe_move(game, from, from.coordinate.0 + dx, from.coordinate.1 + dy);
    match hit {
        Some(a) => {
            out.push(a);
        },
        None => {},
    }
    proof {
        assert(final(out)@ =~= old(out)@ + spec_step_move(
            game.matrix,
            game.player,
            from,
            dx as int,
            dy as int,
        ));
    }
}

/// The rook's pseudo-legal moves.
pub fn gen_moveset_rook(game: &Game, start_square: Square) -> (r: Vec<Action>)
    requires
        game.wf(),
        in_bounds_xy(start_square.coordinate.0 as int, start_square.coordinate.1 as int),
    ensures
        r@ == spec_rook_moves(game.matrix, game.player, start_square),
{
    straight_move(game, start_square)
}

/// The bishop's pseudo-legal moves.
pub fn gen_moveset_bishop(game: &Game, start_square: Square) -> (r: Vec<Action>)
    requires
        game.wf(),
        in_bounds_xy(start_square.coordinate.0 as int, start_square.coordinate.1 as int),
    ensures
        r@ == spec_bishop_moves(game.matrix, game.player, start_square),
{
    diagonal_move(game, start_square)
}

/// The queen's pseudo-legal moves.
pub fn gen_moveset_queen(game: &Game, start_square: Square) -> (r: Vec<Action>)
    requires
        game.wf(),
        in_bounds_xy(start_square.coordinate.0 as int, start_square.coordinate.1 as int),
    ensures
        r@ == spec_queen_moves(game.matrix, game.player, start_square),
{
    let mut out = diagonal_move(game, start_square);
    let mut v2 = straight_move(game, start_square);
    out.append(&mut v2);
    out
}

/// The knight's pseudo-legal jumps.
pub fn gen_moveset_knight(game: &Game, start_square: Square) -> (r: Vec<Action>)
    requires
        game.wf(),
        in_bounds_xy(start_square.coordinate.0 as int, start_square.coordinate.1 as int),
    ensures
        r@ == spec_knight_moves(game.matrix, game.player, start_square),
{
    let mut out: Vec<Action> = Vec::new();
    push_step(game, start_square, -2, 1, &mut out);
    push_step(game, start_square, -1, 2, &mut out);
    push_step(game, start_square, 1, 2, &mut out);
    push_step(game, start_square, 2, 1, &mut out);
    push_step(game, start_square, 2, -1, &mut out);
    push_step(game, start_square, 1, -2, &mut out);
    push_step(game, start_square, -1, -2, &mut out);
    push_step(game, start_square, -2, -1, &mut out);
    proof {
        assert(out@ =~= spec_knight_moves(game.matrix, game.player, start_square));
    }
    out
}

/// The pawn's capture moves; also reused to test whether a square is attacked
/// by an enemy pawn.
pub fn gen_pawn_attack_moveset(game: &Game, from_square: Square) -> (r: Vec<Action>)
    requires
        game.wf(),
        in_bounds_xy(from_square.coordinate.0 as int, from_square.coordinate.1 as int),
    ensures
        r@ == spec_pawn_attack_moves(game.matrix, game.player, from_square),
{
    let team_offset_y: isize = match game.player {
        Team::White => 1,
        Team::Black => -1,
    };
    let mut out: Vec<Action> = Vec::new();
    push_pawn_attack(game, from_square, 1, team_offset_y, &mut out);
    push_pawn_attack(game, from_square, -1, team_offset_y, &mut out);
    proof {
        assert(out@ =~= spec_pawn_attack_moves(game.matrix, game.player, from_square));
    }
    out
}

/// Pushes one diagonal-forward pawn capture when an enemy piece stands there.
fn push_pawn_attack(game: &Game, from: Square, dx: isize, dy: isize, out: &mut Vec<Action>)
    requires
        game.wf(),
        in_bounds_xy(from.coordinate.0 as int, from.coordinate.1 as int),
        dx == 1 || dx == -1,
        dy as int == spec_team_dir(game.player),
    ensures
        final(out)@ == old(out)@ + spec_pawn_attack_at(game.matrix, game.player, from, dx as int),
{
    let x = from.coordinate.0 + dx;
    let y = from.coordinate.1 + dy;
    if not_out_of_bounds(x, y) {
        let to_square = game.matrix[x as usize][y as usize];
        if not_same_team(game.player, to_square) {
            let promotion_row: isize = match game.player {
                Team::White => 7,
                Team::Black => 0,
            };
            let action_type = if y == promotion_row {
                ActionType::Promotion
            } else {
                ActionType::Regular
            };
            out.push(Action { from, to: to_square, action_type });
        }
    }
    proof {
        assert(final(out)@ =~= old(out)@ + spec_pawn_attack_at(
            game.matrix,
            game.player,
            from,
            dx as int,
        ));
    }
}

/// The pawn's pseudo-legal moves: forward and double steps, captures, and en
/// passant.
pub fn gen_moveset_pawn(game: &Game, start_square: Square) -> (r: Vec<Action>)
    requires
        game.wf(),
        in_bounds_xy(start_square.coordinate.0 as int, start_square.coordinate.1 as int),
        start_square.piece is Some,
    ensures
        r@ == spec_pawn_moves(*game, start_square),
{
    let x = start_square.coordinate.0;
    let y = start_square.coordinate.1;
    let offset: isize = match game.player {
        Team::White => 1,
        Team::Black => -1,
    };
    let promotion_row: isize = match game.player {
        Team::White => 7,
        Team::Black => 0,
    };
    let mut available_moves: Vec<Action> = Vec::new();

    // Forward single step.
    if not_out_of_bounds(x, y + offset) {
        let new_square = game.matrix[x as usize][(y + offset) as usize];
        if new_square.piece.is_none() {
            let action_type = if y + offset == promotion_row {
                ActionType::Promotion
            } else {
                ActionType::Regular
            };
            available_moves.push(Action { from: start_square, to: new_square, action_type });
        }
    }
    proof {
        assert(available_moves@ =~= spec_pawn_forward_move(*game, start_square));
    }

    // Double step from the starting rank, over an empty intervening square.
    if game.unmoved(start_square) && not_out_of_bounds(x, y + offset) && not_out_of_bounds(
        x,
        y + 2 * offset,
    ) {
        let mid_square = game.matrix[x as usize][(y + offset) as usize];
        let new_square = game.matrix[x as usize][(y + 2 * offset) as usize];
        if mid_square.piece.is_none() && new_square.piece.is_none() {
            available_moves.push(
                Action { from: start_square, to: new_square, action_type: ActionType::Regular },
            );
        }
    }
    proof {
        assert(available_moves@ =~= spec_pawn_forward_move(*game, start_square)
            + spec_pawn_double_move(*game, start_square));
    }

    // Diagonal captures.
    let mut attacks = gen_pawn_attack_moveset(game, start_square);
    available_moves.append(&mut attacks);

    // En passant on either side.
    push_enpassant(game, start_square, -1, offset, &mut available_moves);
    push_enpassant(game, start_square, 1, offset, &mut available_moves);
    proof {
        assert(available_moves@ =~= spec_pawn_moves(*game, start_square));
    }
    available_moves
}

/// Pushes the en passant capture toward `dx` when the opponent's last action
/// was a pawn double step landing right beside this pawn.
fn push_enpassant(game: &Game, from: Square, dx: isize, dy: isize, out: &mut Vec<Action>)
    requires
        game.wf(),
        in_bounds_xy(from.coordinate.0 as int, from.coordinate.1 as int),
        dx == 1 || dx == -1,
        dy as int == spec_team_dir(game.player),
    ensures
        final(out)@ == old(out)@ + spec_enpassant_at(*game, from, dx as int),
{
    let x = from.coordinate.0 + dx;
    let y = from.coordinate.1;
    if not_out_of_bounds(x, y) && not_out_of_bounds(x, y + dy) {
        let side_square = game.matrix[x as usize][y as usize];
        let landing_square = game.matrix[x as usize][(y + dy) as usize];
        if landing_square.piece.is_none() && not_same_team(game.player, side_square) {
            let side_rank_is_pawn = match side_square.piece {
                Some(p) => p.rank == Rank::Pawn,
                None => false,
            };
            if side_rank_is_pawn && last_was_double_step_to(game, x, y) {
                out.push(
                    Action { from, to: landing_square, action_type: ActionType::Enpassant },
                );
            }
        }
    }
    proof {
        assert(final(out)@ =~= old(out)@ + spec_enpassant_at(*game, from, dx as int));
    }
}

/// Whether the most recent performed action was a pawn double step landing on
/// `(x, y)`: the precondition that en passant derives from the history.
fn last_was_double_step_to(game: &Game, x: isize, y: isize) -> (r: bool)
    ensures
        r == (game.history@.len() > 0 && {
            let last = game.history@.last();
            &&& last.from.piece matches Some(q) && q.rank == Rank::Pawn
            &&& last.to.coordinate.0 as int == x as int
            &&& last.to.coordinate.1 as int == y as int
            &&& (last.from.coordinate.1 as int - last.to.coordinate.1 as int == 2
                || last.to.coordinate.1 as int - last.from.coordinate.1 as int == 2)
        }),
{
    if game.history.len() == 0 {
        return false;
    }
    let last = game.history[game.history.len() - 1];
    let last_is_pawn = match last.from.piece {
        Some(q) => q.rank == Rank::Pawn,
        None => false,
    };
    if !last_is_pawn {
        return false;
    }
    if !(last.to.coordinate.0 == x && last.to.coordinate.1 == y) {
        return false;
    }
    let delta = (last.from.coordinate.1 as i128) - (last.to.coordinate.1 as i128);
    delta == 2 || delta == -2
}

/// Whether some action in the vector captures a piece of the given rank.
#[verifier::loop_isolation(false)]
pub(crate) fn captures_rank(actions: &Vec<Action>, rank: Rank) -> (r: bool)
    ensures
        r == spec_captures_rank(actions@, rank),
{
    let mut i: usize = 0;
    while i < actions.len()
        invariant
            0 <= i <= actions@.len(),
            forall|j: int| 0 <= j < i ==> !spec_capture_of(#[trigger] actions@[j], rank),
        decreases actions@.len() - i,
    {
        let a = actions[i];
        match a.to.piece {
            Some(p) => {
                if p.rank == rank {
                    return true;
                }
            },
            None => {},
        }
        i += 1;
    }
    false
}

/// The eligibility conditions for kingside castling: an unmoved king, an
/// same-side unmoved rook in the right-hand corner of the king's rank, the two squares
/// between them empty, and neither the king's square nor either square it
/// crosses attacked.
pub open spec fn spec_castle_kingside_ok(g: Game, from: Square) -> bool {
    let x = from.coordinate.0 as int;
    let y = from.coordinate.1 as int;
    &&& in_bounds_xy(x, y)
    &&& x + 2 <= 7
    &&& g.spec_unmoved(from)
    &&& board_sq(g.matrix, 7, y).piece == Some(Piece { team: g.player, rank: Rank::Rook })
    &&& g.spec_unmoved(board_sq(g.matrix, 7, y))
    &&& board_sq(g.matrix, x + 1, y).piece is None
    &&& board_sq(g.matrix, x + 2, y).piece is None
    &&& !spec_square_attacked(g.matrix, g.player, from)
    &&& !spec_square_attacked(g.matrix, g.player, board_sq(g.matrix, x + 1, y))
    &&& !spec_square_attacked(g.matrix, g.player, board_sq(g.matrix, x + 2, y))
}

/// The eligibility conditions for queenside castling: an unmoved king, an
/// same-side unmoved rook in the left-hand corner, the three squares between them
/// empty, and neither the king's square nor either square it crosses (the
/// rook's path beyond them does not matter) attacked.
pub open spec fn spec_castle_queenside_ok(g: Game, from: Square) -> bool {
    let x = from.coordinate.0 as int;
    let y = from.coordinate.1 as int;
    &&& in_bounds_xy(x, y)
    &&& x - 3 >= 0
    &&& g.spec_unmoved(from)
    &&& board_sq(g.matrix, 0, y).piece == Some(Piece { team: g.player, rank: Rank::Rook })
    &&& g.spec_unmoved(board_sq(g.matrix, 0, y))
    &&& board_sq(g.matrix, x - 1, y).piece is None
    &&& board_sq(g.matrix, x - 2, y).piece is None
    &&& board_sq(g.matrix, x - 3, y).piece is None
    &&& !spec_square_attacked(g.matrix, g.player, from)
    &&& !spec_square_attacked(g.matrix, g.player, board_sq(g.matrix, x - 1, y))
    &&& !spec_square_attacked(g.matrix, g.player, board_sq(g.matrix, x - 2, y))
}

/// The castling actions available to a king: one per side whose conditions
/// hold, kingside first, each landing the king two files toward the rook.
pub open spec fn spec_castling_moves(g: Game, from: Square) -> Seq<Action> {
    let x = from.coordinate.0 as int;
    let y = from.coordinate.1 as int;
    (if spec_castle_kingside_ok(g, from) {
        seq![
            Action {
                from,
                to: board_sq(g.matrix, x + 2, y),
                action_type: ActionType::Castling,
            },
        ]
    } else {
        Seq::empty()
    }) + (if spec_castle_queenside_ok(g, from) {
        seq![
            Action {
                from,
                to: board_sq(g.matrix, x - 2, y),
                action_type: ActionType::Castling,
            },
        ]
    } else {
        Seq::empty()
    })
}

/// The king's pseudo-legal moves: eight single steps, then castling.
pub open spec fn spec_king_moves(g: Game, from: Square) -> Seq<Action> {
    spec_king_step_moves(g.matrix, g.player, from) + spec_castling_moves(g, from)
}

/// The pseudo-legal moves of the piece on `square`, by its rank; empty when
/// the square is empty.
pub open spec fn spec_pseudo_moves(g: Game, square: Square) -> Seq<Action> {
    match square.piece {
        Some(p) => match p.rank {
            Rank::Pawn => spec_pawn_moves(g, square),
            Rank::Rook => spec_rook_moves(g.matrix, g.player, square),
            Rank::Knight => spec_knight_moves(g.matrix, g.player, square),
            Rank::Bishop => spec_bishop_moves(g.matrix, g.player, square),
            Rank::Queen => spec_queen_moves(g.matrix, g.player, square),
            Rank::King => spec_king_moves(g, square),
        },
        None => Seq::empty(),
    }
}

/// The actions of `s` that do not leave the mover's own king attacked, in
/// their original order: the legality filter's result.
pub open spec fn spec_filter_legal(g: Game, s: Seq<Action>) -> Seq<Action>
    decreases s.len(),
{
    if s.len() == 0 {
        Seq::empty()
    } else {
        spec_filter_legal(g, s.drop_last()) + (if !spec_in_check_after(g, s.last()) {
            seq![s.last()]
        } else {
            Seq::empty()
        })
    }
}

/// The legal moves of the piece on `square`: the pseudo-legal set filtered
/// through the check-safety probe.
pub open spec fn spec_legal_moves(g: Game, square: Square) -> Seq<Action> {
    spec_filter_legal(g, spec_pseudo_moves(g, square))
}

/// An action that generation may emit for `square`: it starts there and its
/// endpoints are sound for performing it.
pub open spec fn spec_from_square_ok(g: Game, square: Square, a: Action) -> bool {
    &&& a.from == square
    &&& spec_action_sane(g, a)
}

/// Castling for the king on `start_square`: kingside then queenside, each
/// side exactly when its eligibility conditions hold.
pub fn castling(game: &Game, start_square: Square) -> (r: Vec<Action>)
    requires
        game.wf(),
        in_bounds_xy(start_square.coordinate.0 as int, start_square.coordinate.1 as int),
        start_square.piece is Some,
    ensures
        r@ == spec_castling_moves(*game, start_square),
{
    let x = start_square.coordinate.0;
    let y = start_square.coordinate.1;
    let yu = y as usize;
    let mut out: Vec<Action> = Vec::new();

    // Kingside.
    if x + 2 <= 7 {
        let rook_square = game.matrix[7][yu];
        let corner_is_own_rook = match rook_square.piece {
            Some(p) => p.team == game.player && p.rank == Rank::Rook,
            None => false,
        };
        if corner_is_own_rook && game.unmoved(start_square) && game.unmoved(rook_square) {
            let pass1 = game.matrix[(x + 1) as usize][yu];
            let dest = game.matrix[(x + 2) as usize][yu];
            if pass1.piece.is_none() && dest.piece.is_none() {
                if !game.check_square_attacked(start_square) && !game.check_square_attacked(pass1)
                    && !game.check_square_attacked(dest) {
                    out.push(
                        Action { from: start_square, to: dest, action_type: ActionType::Castling },
                    );
                }
            }
        }
    }
    proof {
        assert(out@ =~= (if spec_castle_kingside_ok(*game, start_square) {
            seq![
                Action {
                    from: start_square,
                    to: board_sq(
                        game.matrix,
                        start_square.coordinate.0 as int + 2,
                        start_square.coordinate.1 as int,
                    ),
                    action_type: ActionType::Castling,
                },
            ]
        } else {
            Seq::empty()
        }));
    }

    // Queenside.
    if x >= 3 {
        let rook_square = game.matrix[0][yu];
        let corner_is_own_rook = match rook_square.piece {
            Some(p) => p.team == game.player && p.rank == Rank::Rook,
            None => false,
        };
        if corner_is_own_rook && game.unmoved(start_square) && game.unmoved(rook_square) {
            let pass1 = game.matrix[(x - 1) as usize][yu];
            let dest = game.matrix[(x - 2) as usize][yu];
            let far = game.matrix[(x - 3) as usize][yu];
            if pass1.piece.is_none() && dest.piece.is_none() && far.piece.is_none() {
                if !game.check_square_attacked(start_square) && !game.check_square_attacked(pass1)
                    && !game.check_square_attacked(dest) {
                    out.push(
                        Action { from: start_square, to: dest, action_type: ActionType::Castling },
                    );
                }
            }
        }
    }
    proof {
        assert(out@ =~= spec_castling_moves(*game, start_square));
    }
    out
}

/// The king's pseudo-legal moves, castling included.
pub fn gen_moveset_king(game: &Game, start_square: Square) -> (r: Vec<Action>)
    requires
        game.wf(),
        in_bounds_xy(start_square.coordinate.0 as int, start_square.coordinate.1 as int),
        start_square.piece is Some,
    ensures
        r@ == spec_king_moves(*game, start_square),
{
    let mut out: Vec<Action> = Vec::new();
    push_step(game, start_square, -1, 1, &mut out);
    push_step(game, start_square, -1, -1, &mut out);
    push_step(game, start_square, 1, 1, &mut out);
    push_step(game, start_square, 1, -1, &mut out);
    push_step(game, start_square, -1, 0, &mut out);
    push_step(game, start_square, 0, 1, &mut out);
    push_step(game, start_square, 1, 0, &mut out);
    push_step(game, start_square, 0, -1, &mut out);
    let mut castles = castling(game, start_square);
    out.append(&mut castles);
    proof {
        assert(out@ =~= spec_king_moves(*game, start_square));
    }
    out
}

/// Every action of `s` starts on `square` and is sound to perform.
pub open spec fn spec_all_from_ok(g: Game, square: Square, s: Seq<Action>) -> bool {
    forall|i: int| 0 <= i < s.len() ==> spec_from_square_ok(g, square, #[trigger] s[i])
}

/// Soundness of a concatenation follows from soundness of its parts.
proof fn lemma_all_from_ok_concat(g: Game, square: Square, s1: Seq<Action>, s2: Seq<Action>)
    requires
        spec_all_from_ok(g, square, s1),
        spec_all_from_ok(g, square, s2),
    ensures
        spec_all_from_ok(g, square, s1 + s2),
{
    assert forall|i: int| 0 <= i < (s1 + s2).len() implies spec_from_square_ok(
        g,
        square,
        #[trigger] (s1 + s2)[i],
    ) by {
        if i < s1.len() {
            assert((s1 + s2)[i] == s1[i]);
        } else {
            assert((s1 + s2)[i] == s2[i - s1.len()]);
        }
    }
}

/// Every action of a sliding ray starts on `from`, is a regular move, and
/// lands on a distinct on-board square.
proof fn lemma_ray_moves_sane(g: Game, from: Square, dx: int, dy: int, step: nat)
    requires
        g.wf(),
        in_bounds_xy(from.coordinate.0 as int, from.coordinate.1 as int),
        -1 <= dx <= 1,
        -1 <= dy <= 1,
        !(dx == 0 && dy == 0),
        1 <= step <= 8,
    ensures
        spec_all_from_ok(g, from, spec_ray_moves(g.matrix, g.player, from, dx, dy, step)),
    decreases 9 - step,
{
    let m = g.matrix;
    assert(dx * step == (if dx == -1 {
        -(step as int)
    } else if dx == 0 {
        0int
    } else {
        step as int
    })) by (nonlinear_arith)
        requires
            -1 <= dx <= 1,
            1 <= step,
    ;
    assert(dy * step == (if dy == -1 {
        -(step as int)
    } else if dy == 0 {
        0int
    } else {
        step as int
    })) by (nonlinear_arith)
        requires
            -1 <= dy <= 1,
            1 <= step,
    ;
    let x = from.coordinate.0 as int + dx * step;
    let y = from.coordinate.1 as int + dy * step;
    if in_bounds_xy(x, y) {
        assert(board_sq(m, x, y).coordinate == (x as isize, y as isize));
        if board_sq(m, x, y).piece is None {
            assert(step <= 7);
            lemma_ray_moves_sane(g, from, dx, dy, (step + 1) as nat);
            let s = spec_ray_moves(m, g.player, from, dx, dy, step);
            let rest = spec_ray_moves(m, g.player, from, dx, dy, (step + 1) as nat);
            assert forall|i: int| 0 <= i < s.len() implies spec_from_square_ok(
                g,
                from,
                #[trigger] s[i],
            ) by {
                if i >= 1 {
                    assert(s[i] == rest[i - 1]);
                }
            }
        }
    }
}

/// Every single-step action starts on `from`, is regular, and lands on a
/// distinct on-board square.
proof fn lemma_step_move_sane(g: Game, from: Square, dx: int, dy: int)
    requires
        g.wf(),
        in_bounds_xy(from.coordinate.0 as int, from.coordinate.1 as int),
        -2 <= dx <= 2,
        -2 <= dy <= 2,
        !(dx == 0 && dy == 0),
    ensures
        spec_all_from_ok(g, from, spec_step_move(g.matrix, g.player, from, dx, dy)),
{
}

/// Every sound part of the pawn's moveset, in turn.
proof fn lemma_pawn_moves_sane(g: Game, from: Square)
    requires
        g.wf(),
        in_bounds_xy(from.coordinate.0 as int, from.coordinate.1 as int),
    ensures
        spec_all_from_ok(g, from, spec_pawn_moves(g, from)),
{
    lemma_all_from_ok_concat(
        g,
        from,
        spec_pawn_forward_move(g, from),
        spec_pawn_double_move(g, from),
    );
    lemma_all_from_ok_concat(
        g,
        from,
        spec_pawn_forward_move(g, from) + spec_pawn_double_move(g, from),
        spec_pawn_attack_moves(g.matrix, g.player, from),
    );
    lemma_all_from_ok_concat(
        g,
        from,
        spec_pawn_forward_move(g, from) + spec_pawn_double_move(g, from)
            + spec_pawn_attack_moves(g.matrix, g.player, from),
        spec_enpassant_at(g, from, -1),
    );
    lemma_all_from_ok_concat(
        g,
        from,
        spec_pawn_forward_move(g, from) + spec_pawn_double_move(g, from)
            + spec_pawn_attack_moves(g.matrix, g.player, from) + spec_enpassant_at(g, from, -1),
        spec_enpassant_at(g, from, 1),
    );
}

/// Both castling actions are sound: the destination sits between the king
/// and the rook's corner, on the king's own rank.
proof fn lemma_castling_sane(g: Game, from: Square)
    requires
        g.wf(),
        in_bounds_xy(from.coordinate.0 as int, from.coordinate.1 as int),
    ensures
        spec_all_from_ok(g, from, spec_castling_moves(g, from)),
{
    let x = from.coordinate.0 as int;
    let y = from.coordinate.1 as int;
    if spec_castle_kingside_ok(g, from) {
        // The king cannot land on the rook's corner: that square is empty
        // while the corner is occupied.
        assert(x + 2 < 7);
    }
}

/// The four sliding directions of the axes are sound.
proof fn lemma_straight_moves_sane(g: Game, from: Square)
    requires
        g.wf(),
        in_bounds_xy(from.coordinate.0 as int, from.coordinate.1 as int),
    ensures
        spec_all_from_ok(g, from, spec_straight_moves(g.matrix, g.player, from)),
{
    let m = g.matrix;
    let p = g.player;
    lemma_ray_moves_sane(g, from, -1, 0, 1);
    lemma_ray_moves_sane(g, from, 0, 1, 1);
    lemma_ray_moves_sane(g, from, 1, 0, 1);
    lemma_ray_moves_sane(g, from, 0, -1, 1);
    lemma_all_from_ok_concat(
        g,
        from,
        spec_ray_moves(m, p, from, -1, 0, 1),
        spec_ray_moves(m, p, from, 0, 1, 1),
    );
    lemma_all_from_ok_concat(
        g,
        from,
        spec_ray_moves(m, p, from, -1, 0, 1) + spec_ray_moves(m, p, from, 0, 1, 1),
        spec_ray_moves(m, p, from, 1, 0, 1),
    );
    lemma_all_from_ok_concat(
        g,
        from,
        spec_ray_moves(m, p, from, -1, 0, 1) + spec_ray_moves(m, p, from, 0, 1, 1)
            + spec_ray_moves(m, p, from, 1, 0, 1),
        spec_ray_moves(m, p, from, 0, -1, 1),
    );
}

/// The four sliding directions of the diagonals are sound.
proof fn lemma_diagonal_moves_sane(g: Game, from: Square)
    requires
        g.wf(),
        in_bounds_xy(from.coordinate.0 as int, from.coordinate.1 as int),
    ensures
        spec_all_from_ok(g, from, spec_diagonal_moves(g.matrix, g.player, from)),
{
    let m = g.matrix;
    let p = g.player;
    lemma_ray_moves_sane(g, from, -1, 1, 1);
    lemma_ray_moves_sane(g, from, -1, -1, 1);
    lemma_ray_moves_sane(g, from, 1, 1, 1);
    lemma_ray_moves_sane(g, from, 1, -1, 1);
    lemma_all_from_ok_concat(
        g,
        from,
        spec_ray_moves(m, p, from, -1, 1, 1),
        spec_ray_moves(m, p, from, -1, -1, 1),
    );
    lemma_all_from_ok_concat(
        g,
        from,
        spec_ray_moves(m, p, from, -1, 1, 1) + spec_ray_moves(m, p, from, -1, -1, 1),
        spec_ray_moves(m, p, from, 1, 1, 1),
    );
    lemma_all_from_ok_concat(
        g,
        from,
        spec_ray_moves(m, p, from, -1, 1, 1) + spec_ray_moves(m, p, from, -1, -1, 1)
            + spec_ray_moves(m, p, from, 1, 1, 1),
        spec_ray_moves(m, p, from, 1, -1, 1),
    );
}

/// The knight's eight jumps are sound.
proof fn lemma_knight_moves_sane(g: Game, from: Square)
    requires
        g.wf(),
        in_bounds_xy(from.coordinate.0 as int, from.coordinate.1 as int),
    ensures
        spec_all_from_ok(g, from, spec_knight_moves(g.matrix, g.player, from)),
{
    let m = g.matrix;
    let p = g.player;
    lemma_step_move_sane(g, from, -2, 1);
    lemma_step_move_sane(g, from, -1, 2);
    lemma_step_move_sane(g, from, 1, 2);
    lemma_step_move_sane(g, from, 2, 1);
    lemma_step_move_sane(g, from, 2, -1);
    lemma_step_move_sane(g, from, 1, -2);
    lemma_step_move_sane(g, from, -1, -2);
    lemma_step_move_sane(g, from, -2, -1);
    let s1 = spec_step_move(m, p, from, -2, 1);
    let s2 = spec_step_move(m, p, from, -1, 2);
    let s3 = spec_step_move(m, p, from, 1, 2);
    let s4 = spec_step_move(m, p, from, 2, 1);
    let s5 = spec_step_move(m, p, from, 2, -1);
    let s6 = spec_step_move(m, p, from, 1, -2);
    let s7 = spec_step_move(m, p, from, -1, -2);
    let s8 = spec_step_move(m, p, from, -2, -1);
    lemma_all_from_ok_concat(g, from, s1, s2);
    lemma_all_from_ok_concat(g, from, s1 + s2, s3);
    lemma_all_from_ok_concat(g, from, s1 + s2 + s3, s4);
    lemma_all_from_ok_concat(g, from, s1 + s2 + s3 + s4, s5);
    lemma_all_from_ok_concat(g, from, s1 + s2 + s3 + s4 + s5, s6);
    lemma_all_from_ok_concat(g, from, s1 + s2 + s3 + s4 + s5 + s6, s7);
    lemma_all_from_ok_concat(g, from, s1 + s2 + s3 + s4 + s5 + s6 + s7, s8);
}

/// The king's eight steps and both castling actions are sound.
proof fn lemma_king_moves_sane(g: Game, from: Square)
    requires
        g.wf(),
        in_bounds_xy(from.coordinate.0 as int, from.coordinate.1 as int),
    ensures
        spec_all_from_ok(g, from, spec_king_moves(g, from)),
{
    let m = g.matrix;
    let p = g.player;
    lemma_step_move_sane(g, from, -1, 1);
    lemma_step_move_sane(g, from, -1, -1);
    lemma_step_move_sane(g, from, 1, 1);
    lemma_step_move_sane(g, from, 1, -1);
    lemma_step_move_sane(g, from, -1, 0);
    lemma_step_move_sane(g, from, 0, 1);
    lemma_step_move_sane(g, from, 1, 0);
    lemma_step_move_sane(g, from, 0, -1);
    let s1 = spec_step_move(m, p, from, -1, 1);
    let s2 = spec_step_move(m, p, from, -1, -1);
    let s3 = spec_step_move(m, p, from, 1, 1);
    let s4 = spec_step_move(m, p, from, 1, -1);
    let s5 = spec_step_move(m, p, from, -1, 0);
    let s6 = spec_step_move(m, p, from, 0, 1);
    let s7 = spec_step_move(m, p, from, 1, 0);
    let s8 = spec_step_move(m, p, from, 0, -1);
    lemma_all_from_ok_concat(g, from, s1, s2);
    lemma_all_from_ok_concat(g, from, s1 + s2, s3);
    lemma_all_from_ok_concat(g, from, s1 + s2 + s3, s4);
    lemma_all_from_ok_concat(g, from, s1 + s2 + s3 + s4, s5);
    lemma_all_from_ok_concat(g, from, s1 + s2 + s3 + s4 + s5, s6);
    lemma_all_from_ok_concat(g, from, s1 + s2 + s3 + s4 + s5 + s6, s7);
    lemma_all_from_ok_concat(g, from, s1 + s2 + s3 + s4 + s5 + s6 + s7, s8);
    lemma_castling_sane(g, from);
    lemma_all_from_ok_concat(
        g,
        from,
        spec_king_step_moves(m, p, from),
        spec_castling_moves(g, from),
    );
}

/// Every pseudo-legal action generated for `square` starts there and is
/// sound to perform: its endpoints are on the board and distinct, and its
/// kind-specific geometry holds.
pub proof fn lemma_pseudo_moves_sane(g: Game, square: Square)
    requires
        g.wf(),
        in_bounds_xy(square.coordinate.0 as int, square.coordinate.1 as int),
    ensures
        spec_all_from_ok(g, square, spec_pseudo_moves(g, square)),
{
    match square.piece {
        None => {},
        Some(p) => match p.rank {
            Rank::Rook => lemma_straight_moves_sane(g, square),
            Rank::Bishop => lemma_diagonal_moves_sane(g, square),
            Rank::Queen => {
                lemma_diagonal_moves_sane(g, square);
                lemma_straight_moves_sane(g, square);
                lemma_all_from_ok_concat(
                    g,
                    square,
                    spec_diagonal_moves(g.matrix, g.player, square),
                    spec_straight_moves(g.matrix, g.player, square),
                );
            },
            Rank::Knight => lemma_knight_moves_sane(g, square),
            Rank::King => lemma_king_moves_sane(g, square),
            Rank::Pawn => lemma_pawn_moves_sane(g, square),
        },
    }
}
/// Every action that survives the legality filter came from the filtered
/// sequence and does not leave the mover's own king attacked.
pub proof fn lemma_filter_legal_props(g: Game, s: Seq<Action>)
    ensures
        forall|i: int|
            0 <= i < spec_filter_legal(g, s).len() ==> {
                let a = #[trigger] spec_filter_legal(g, s)[i];
                &&& !spec_in_check_after(g, a)
                &&& exists|j: int| 0 <= j < s.len() && s[j] == a
            },
    decreases s.len(),
{
    if s.len() > 0 {
        lemma_filter_legal_props(g, s.drop_last());
        assert forall|i: int| 0 <= i < spec_filter_legal(g, s).len() implies {
            let a = #[trigger] spec_filter_legal(g, s)[i];
            &&& !spec_in_check_after(g, a)
            &&& exists|j: int| 0 <= j < s.len() && s[j] == a
        } by {
            let a = spec_filter_legal(g, s)[i];
            let prefix = spec_filter_legal(g, s.drop_last());
            if i < prefix.len() {
                assert(a == prefix[i]);
                let j = choose|j: int| 0 <= j < s.drop_last().len() && s.drop_last()[j] == a;
                assert(s[j] == a);
            } else {
                assert(a == s.last());
                assert(s[s.len() - 1] == a);
            }
        }
    }
}

/// Every legal action generated for `square` starts there, is sound to
/// perform, and leaves the mover's own king unattacked.
pub proof fn lemma_legal_moves_sane(g: Game, square: Square)
    requires
        g.wf(),
        in_bounds_xy(square.coordinate.0 as int, square.coordinate.1 as int),
    ensures
        forall|i: int|
            0 <= i < spec_legal_moves(g, square).len() ==> {
                let a = #[trigger] spec_legal_moves(g, square)[i];
                &&& spec_from_square_ok(g, square, a)
                &&& !spec_in_check_after(g, a)
            },
{
    lemma_pseudo_moves_sane(g, square);
    lemma_filter_legal_props(g, spec_pseudo_moves(g, square));
}

/// A king move into an attacked square never survives the legality filter:
/// for any legal regular move of a king, the king's destination square is
/// not attacked on the board as it stands after the move.
pub proof fn lemma_king_move_never_into_attack(g: Game, square: Square, i: int)
    requires
        g.wf(),
        in_bounds_xy(square.coordinate.0 as int, square.coordinate.1 as int),
        0 <= i < spec_legal_moves(g, square).len(),
        spec_legal_moves(g, square)[i].from.piece matches Some(p) && p.rank == Rank::King,
        spec_legal_moves(g, square)[i].action_type == ActionType::Regular,
    ensures
        !spec_square_attacked(
            spec_matrix_after(g.matrix, g.player, spec_legal_moves(g, square)[i]),
            g.player,
            board_sq(
                g.matrix,
                spec_legal_moves(g, square)[i].to.coordinate.0 as int,
                spec_legal_moves(g, square)[i].to.coordinate.1 as int,
            ),
        ),
{
    lemma_filter_legal_props(g, spec_pseudo_moves(g, square));
    let a = spec_legal_moves(g, square)[i];
    assert(!spec_in_check_after(g, a));
    let after = crate::game::spec_game_after(g, a);
    assert(after.spec_king_square(g.player) == board_sq(
        g.matrix,
        a.to.coordinate.0 as int,
        a.to.coordinate.1 as int,
    ));
}

/// The legality filter re-validates a castling king's landing square: for
/// any legal castling action, that square is not attacked on the board as
/// it stands after the move.
pub proof fn lemma_castling_lands_safe(g: Game, square: Square, i: int)
    requires
        g.wf(),
        in_bounds_xy(square.coordinate.0 as int, square.coordinate.1 as int),
        0 <= i < spec_legal_moves(g, square).len(),
        spec_legal_moves(g, square)[i].action_type == ActionType::Castling,
    ensures
        !spec_square_attacked(
            spec_matrix_after(g.matrix, g.player, spec_legal_moves(g, square)[i]),
            g.player,
            board_sq(
                spec_matrix_after(g.matrix, g.player, spec_legal_moves(g, square)[i]),
                spec_legal_moves(g, square)[i].to.coordinate.0 as int,
                spec_legal_moves(g, square)[i].to.coordinate.1 as int,
            ),
        ),
{
    lemma_filter_legal_props(g, spec_pseudo_moves(g, square));
    let a = spec_legal_moves(g, square)[i];
    assert(!spec_in_check_after(g, a));
}

/// Two games with the same board, side to move and caches agree on the
/// legality filter, whatever vector holds their histories.
pub proof fn lemma_filter_legal_same_fields(g1: Game, g2: Game, s: Seq<Action>)
    requires
        g1.matrix == g2.matrix,
        g1.player == g2.player,
        g1.white_king_square == g2.white_king_square,
        g1.black_king_square == g2.black_king_square,
    ensures
        spec_filter_legal(g1, s) == spec_filter_legal(g2, s),
    decreases s.len(),
{
    if s.len() > 0 {
        lemma_filter_legal_same_fields(g1, g2, s.drop_last());
        assert(spec_in_check_after(g1, s.last()) == spec_in_check_after(g2, s.last()));
    }
}

/// Two games with the same board, side to move and history contents emit
/// the same pseudo-legal moves.
pub proof fn lemma_pseudo_same_fields(g1: Game, g2: Game, square: Square)
    requires
        g1.matrix == g2.matrix,
        g1.player == g2.player,
        g1.history@ == g2.history@,
    ensures
        spec_pseudo_moves(g1, square) == spec_pseudo_moves(g2, square),
{
    crate::game::lemma_unmoved_same_fields(g1, g2, square);
    match square.piece {
        Some(p) => match p.rank {
            Rank::Pawn => {
                assert(spec_pawn_forward_move(g1, square) == spec_pawn_forward_move(g2, square));
                assert(spec_pawn_double_move(g1, square) == spec_pawn_double_move(g2, square));
                assert(spec_enpassant_at(g1, square, -1) == spec_enpassant_at(g2, square, -1));
                assert(spec_enpassant_at(g1, square, 1) == spec_enpassant_at(g2, square, 1));
            },
            Rank::King => {
                let y = square.coordinate.1 as int;
                crate::game::lemma_unmoved_same_fields(g1, g2, board_sq(g1.matrix, 7, y));
                crate::game::lemma_unmoved_same_fields(g1, g2, board_sq(g1.matrix, 0, y));
                assert(spec_castle_kingside_ok(g1, square) == spec_castle_kingside_ok(g2, square));
                assert(spec_castle_queenside_ok(g1, square) == spec_castle_queenside_ok(
                    g2,
                    square,
                ));
                assert(spec_castling_moves(g1, square) == spec_castling_moves(g2, square));
            },
            _ => {},
        },
        None => {},
    }
}

/// Two games with the same board, side to move, caches and history contents
/// agree on the legal moves of every square.
pub proof fn lemma_legal_same_fields(g1: Game, g2: Game, square: Square)
    requires
        g1.matrix == g2.matrix,
        g1.player == g2.player,
        g1.white_king_square == g2.white_king_square,
        g1.black_king_square == g2.black_king_square,
        g1.history@ == g2.history@,
    ensures
        spec_legal_moves(g1, square) == spec_legal_moves(g2, square),
{
    lemma_pseudo_same_fields(g1, g2, square);
    lemma_filter_legal_same_fields(g1, g2, spec_pseudo_moves(g1, square));
}

/// The legal moves of the piece on `square`, or the error the caller gets
/// when the square is empty or holds an enemy piece.  The result is exactly
/// the pseudo-legal set filtered through the check-safety probe, and every
/// returned action starts on `square` and is sound to perform.
#[verifier::loop_isolation(false)]
#[verifier::rlimit(60)]
pub fn generate_moves(game: &Game, square: Square) -> (r: Result<Vec<Action>, String>)
    requires
        game.wf(),
        in_bounds_xy(square.coordinate.0 as int, square.coordinate.1 as int),
    ensures
        match r {
            Ok(v) => {
                &&& square.piece matches Some(p) && p.team == game.player
                &&& v@ == spec_legal_moves(*game, square)
                &&& forall|i: int|
                    0 <= i < v@.len() ==> spec_from_square_ok(*game, square, #[trigger] v@[i])
                        && !spec_in_check_after(*game, v@[i])
            },
            Err(e) => {
                &&& (square.piece is None && e@ == "Tried to move empty square"@) || (
                square.piece matches Some(p) && p.team != game.player && e@
                    == "Cant move enemy piece"@)
            },
        },
{
    let piece = match square.piece {
        Some(p) => p,
        None => {
            return Err(String::from_str("Tried to move empty square"));
        },
    };
    if piece.team != game.player {
        return Err(String::from_str("Cant move enemy piece"));
    }
    let moveset: Vec<Action> = match piece.rank {
        Rank::Pawn => gen_moveset_pawn(game, square),
        Rank::Rook => gen_moveset_rook(game, square),
        Rank::Knight => gen_moveset_knight(game, square),
        Rank::Bishop => gen_moveset_bishop(game, square),
        Rank::Queen => gen_moveset_queen(game, square),
        Rank::King => gen_moveset_king(game, square),
    };
    proof {
        assert(moveset@ == spec_pseudo_moves(*game, square));
        lemma_pseudo_moves_sane(*game, square);
        lemma_filter_legal_props(*game, spec_pseudo_moves(*game, square));
    }

    let mut legal_moveset: Vec<Action> = Vec::new();
    let mut i: usize = 0;
    while i < moveset.len()
        invariant
            0 <= i <= moveset@.len(),
            legal_moveset@ == spec_filter_legal(*game, moveset@.take(i as int)),
        decreases moveset@.len() - i,
    {
        let action = moveset[i];
        proof {
            assert(spec_action_sane(*game, action));
        }
        if !game.check(&action) {
            legal_moveset.push(action);
        }
        proof {
            assert(moveset@.take(i + 1 as int).drop_last() =~= moveset@.take(i as int));
            assert(moveset@.take(i + 1 as int).last() == action);
        }
        i += 1;
    }
    proof {
        assert(moveset@.take(moveset@.len() as int) =~= moveset@);
    }
    Ok(legal_moveset)
}

} // verus!
