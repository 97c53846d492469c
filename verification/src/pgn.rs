//! Notation decoding: turns a recorded transcript of algebraic half-moves
//! into engine actions by disambiguating each token against the legal moves
//! of a replayed game, yielding the action log and the per-ply states the
//! notation itself records.

use vstd::prelude::*;

use crate::game::{
    is_space, spec_action_sane, spec_all_moves, spec_digit_value, spec_file_index, spec_is_space,
    Game, GameState, Rank,
};
use crate::moves::{Action, ActionType};

verus! {

/// The transcript with `{...}` commentary removed, folded from position `i`
/// with the in-comment flag and the kept text so far.
pub open spec fn spec_strip_from(s: Seq<char>, i: nat, in_comment: bool, acc: Seq<char>) -> Seq<
    char,
>
    decreases s.len() - i,
{
    if i >= s.len() {
        acc
    } else {
        let c = s[i as int];
        if in_comment {
            spec_strip_from(s, i + 1, c != '}', acc)
        } else if c == '{' {
            spec_strip_from(s, i + 1, true, acc)
        } else {
            spec_strip_from(s, i + 1, false, acc.push(c))
        }
    }
}

/// The transcript with `{...}` commentary removed.
pub open spec fn spec_strip_comments(s: Seq<char>) -> Seq<char> {
    spec_strip_from(s, 0, false, Seq::empty())
}

/// The half-move tokens of the stripped transcript, folded from position
/// `i`: a full-move group starts after each `.`, everything before the first
/// `.` is dropped, and only the first two words of each group are kept.
pub open spec fn spec_turns_from(
    s: Seq<char>,
    i: nat,
    seen_dot: bool,
    words: nat,
    cur: Seq<char>,
    acc: Seq<Seq<char>>,
) -> Seq<Seq<char>>
    decreases s.len() - i,
{
    if i >= s.len() {
        if seen_dot && words < 2 && cur.len() > 0 {
            acc.push(cur)
        } else {
            acc
        }
    } else {
        let c = s[i as int];
        if c == '.' {
            let acc2 = if seen_dot && words < 2 && cur.len() > 0 {
                acc.push(cur)
            } else {
                acc
            };
            spec_turns_from(s, i + 1, true, 0, Seq::empty(), acc2)
        } else if spec_is_space(c) {
            if cur.len() > 0 {
                if seen_dot && words < 2 {
                    spec_turns_from(s, i + 1, seen_dot, words + 1, Seq::empty(), acc.push(cur))
                } else {
                    spec_turns_from(s, i + 1, seen_dot, words, Seq::empty(), acc)
                }
            } else {
                spec_turns_from(s, i + 1, seen_dot, words, cur, acc)
            }
        } else {
            spec_turns_from(s, i + 1, seen_dot, words, cur.push(c), acc)
        }
    }
}

/// Whether a token holds a dash, as the result tokens `1-0`, `0-1` and
/// `1/2-1/2` do.
pub open spec fn spec_contains_dash(t: Seq<char>) -> bool {
    exists|i: int| 0 <= i < t.len() && t[i] == '-'
}

/// The ordered half-move tokens of a transcript: commentary stripped,
/// full-move groups split, and a trailing result token dropped.
pub open spec fn spec_half_turns(s: Seq<char>) -> Seq<Seq<char>> {
    let t = spec_turns_from(spec_strip_comments(s), 0, false, 0, Seq::empty(), Seq::empty());
    if t.len() > 0 && spec_contains_dash(t.last()) {
        t.drop_last()
    } else {
        t
    }
}

/// The state a half-move token itself records: `+` marks check, `#` marks
/// checkmate, anything else an active position.
pub open spec fn spec_notation_state(t: Seq<char>) -> GameState {
    if t.len() == 0 {
        GameState::Active
    } else if t.last() == '+' {
        GameState::Check
    } else if t.last() == '#' {
        GameState::Checkmate
    } else {
        GameState::Active
    }
}

/// The index of the last decimal digit among the first `n` characters.
pub open spec fn spec_last_digit_upto(t: Seq<char>, n: nat) -> Option<int>
    decreases n,
{
    if n == 0 {
        None
    } else if spec_digit_value(t[n - 1]) is Some {
        Some(n - 1)
    } else {
        spec_last_digit_upto(t, (n - 1) as nat)
    }
}

/// The index of the last decimal digit of the token: the rank digit of its
/// destination square.
pub open spec fn spec_last_digit_idx(t: Seq<char>) -> Option<int> {
    spec_last_digit_upto(t, t.len())
}

/// The piece rank named by an algebraic piece letter, if any.
pub open spec fn spec_piece_letter(c: char) -> Option<Rank> {
    if c == 'P' {
        Some(Rank::Pawn)
    } else if c == 'R' {
        Some(Rank::Rook)
    } else if c == 'N' {
        Some(Rank::Knight)
    } else if c == 'B' {
        Some(Rank::Bishop)
    } else if c == 'Q' {
        Some(Rank::Queen)
    } else if c == 'K' {
        Some(Rank::King)
    } else {
        None
    }
}

/// What one half-move token asks for, after parsing and before
/// disambiguation against the legal moves.
#[derive(Debug, Copy, Clone, PartialEq)]
pub enum MoveQuery {
    /// One of the two castling tokens.
    Castle { kingside: bool },
    /// A piece move: the destination square, the moving piece's rank, the
    /// optional source-file and source-rank disambiguators, and the
    /// promotion rank the token names.
    Move {
        dest: (isize, isize),
        rank: Rank,
        from_file: Option<isize>,
        from_row: Option<isize>,
        promotion: Option<Rank>,
    },
}

/// Whether an action answers a query: a castling action landing on the
/// asked-for wing, or a move of the named rank onto the named destination
/// that agrees with every given disambiguator.
pub open spec fn spec_query_match(q: MoveQuery, a: Action) -> bool {
    match q {
        MoveQuery::Castle { kingside } => {
            &&& a.action_type == ActionType::Castling
            &&& a.to.coordinate.0 == (if kingside {
                6isize
            } else {
                2isize
            })
        },
        MoveQuery::Move { dest, rank, from_file, from_row, promotion } => {
            &&& a.to.coordinate == dest
            &&& a.from.piece matches Some(p) && p.rank == rank
            &&& match from_file {
                Some(f) => a.from.coordinate.0 == f,
                None => true,
            }
            &&& match from_row {
                Some(rw) => a.from.coordinate.1 == rw,
                None => true,
            }
        },
    }
}

/// The actions of `s` answering the query, in order.
pub open spec fn spec_query_matches_of(q: MoveQuery, s: Seq<Action>) -> Seq<Action>
    decreases s.len(),
{
    if s.len() == 0 {
        Seq::empty()
    } else {
        spec_query_matches_of(q, s.drop_last()) + (if spec_query_match(q, s.last()) {
            seq![s.last()]
        } else {
            Seq::empty()
        })
    }
}

/// Every action answering a query among `s` is an element of `s`.
pub proof fn lemma_query_matches_props(q: MoveQuery, s: Seq<Action>)
    ensures
        forall|i: int|
            0 <= i < spec_query_matches_of(q, s).len() ==> {
                let a = #[trigger] spec_query_matches_of(q, s)[i];
                &&& spec_query_match(q, a)
                &&& exists|j: int| 0 <= j < s.len() && s[j] == a
            },
    decreases s.len(),
{
    if s.len() > 0 {
        lemma_query_matches_props(q, s.drop_last());
        assert forall|i: int| 0 <= i < spec_query_matches_of(q, s).len() implies {
            let a = #[trigger] spec_query_matches_of(q, s)[i];
            &&& spec_query_match(q, a)
            &&& exists|j: int| 0 <= j < s.len() && s[j] == a
        } by {
            let a = spec_query_matches_of(q, s)[i];
            let prefix = spec_query_matches_of(q, s.drop_last());
            if i < prefix.len() {
                assert(a == prefix[i]);
                let j = choose|j: int| 0 <= j < s.drop_last().len() && s.drop_last()[j] == a;
                assert(s[j] == a);
            } else {
                assert(a == s.last());
                assert(s[s.len() - 1] == a);
            }
        }
    }
}

/// The index of the last decimal digit of the token, if any.
#[verifier::loop_isolation(false)]
fn find_last_digit(t: &Vec<char>) -> (r: Option<usize>)
    ensures
        match r {
            Some(i) => i < t@.len() && spec_last_digit_idx(t@) == Some(i as int),
            None => spec_last_digit_idx(t@) is None,
        },
{
    let mut n: usize = t.len();
    while n > 0
        invariant
            0 <= n <= t@.len(),
            spec_last_digit_idx(t@) == spec_last_digit_upto(t@, n as nat),
        decreases n,
    {
        match crate::game::digit_value(t[n - 1]) {
            Some(_) => {
                return Some(n - 1);
            },
            None => {},
        }
        n -= 1;
    }
    None
}

/// The piece rank named by an algebraic piece letter.
fn piece_letter(c: char) -> (r: Option<Rank>)
    ensures
        r == spec_piece_letter(c),
{
    if c == 'P' {
        Some(Rank::Pawn)
    } else if c == 'R' {
        Some(Rank::Rook)
    } else if c == 'N' {
        Some(Rank::Knight)
    } else if c == 'B' {
        Some(Rank::Bishop)
    } else if c == 'Q' {
        Some(Rank::Queen)
    } else if c == 'K' {
        Some(Rank::King)
    } else {
        None
    }
}
/// The characters of a disambiguation region with the capture markers
/// (`x`) removed.
pub open spec fn spec_without_x(t: Seq<char>) -> Seq<char>
    decreases t.len(),
{
    if t.len() == 0 {
        Seq::empty()
    } else {
        spec_without_x(t.drop_last()) + (if t.last() != 'x' {
            seq![t.last()]
        } else {
            Seq::empty()
        })
    }
}

/// The source disambiguators a region names once capture markers are gone:
/// nothing, a source file letter, a source rank digit, or a file letter
/// followed by a rank digit; anything else is malformed.
pub open spec fn spec_disambig(region: Seq<char>) -> Option<(Option<isize>, Option<isize>)> {
    let r = spec_without_x(region);
    if r.len() == 0 {
        Some((None, None))
    } else if r.len() == 1 {
        if spec_file_index(r[0]) is Some {
            Some((spec_file_index(r[0]), None))
        } else {
            match spec_digit_value(r[0]) {
                Some(d) => if 1 <= d <= 8 {
                    Some((None, Some((d - 1) as isize)))
                } else {
                    None
                },
                None => None,
            }
        }
    } else if r.len() == 2 {
        if {
            &&& spec_file_index(r[0]) is Some
            &&& spec_digit_value(r[1]) matches Some(d) && 1 <= d <= 8
        } {
            Some(
                (
                    spec_file_index(r[0]),
                    match spec_digit_value(r[1]) {
                        Some(d) => Some((d - 1) as isize),
                        None => None,
                    },
                ),
            )
        } else {
            None
        }
    } else {
        None
    }
}

/// The promotion rank a token names right after its destination square:
/// `Some(None)` when it names none, `None` when the letter after `=` is not
/// a rank a pawn may become.
pub open spec fn spec_promo_of(t: Seq<char>, di: int) -> Option<Option<Rank>> {
    if t.len() >= 3 && di <= t.len() - 3 && t[di + 1] == '=' {
        match spec_piece_letter(t[di + 2]) {
            Some(Rank::Queen) => Some(Some(Rank::Queen)),
            Some(Rank::Rook) => Some(Some(Rank::Rook)),
            Some(Rank::Bishop) => Some(Some(Rank::Bishop)),
            Some(Rank::Knight) => Some(Some(Rank::Knight)),
            _ => None,
        }
    } else {
        Some(None)
    }
}

/// What a half-move token asks for, if it is well formed: a castling token
/// by its length, else the destination from the last digit and the file
/// letter before it, the rank from a leading piece letter (a pawn
/// otherwise), the disambiguators between the two, and a promotion rank
/// after `=`.
pub open spec fn spec_parse_query(t: Seq<char>) -> Option<MoveQuery> {
    match spec_last_digit_idx(t) {
        None => if t.len() == 3 {
            Some(MoveQuery::Castle { kingside: true })
        } else if t.len() == 5 {
            Some(MoveQuery::Castle { kingside: false })
        } else {
            None
        },
        Some(di) => {
            if di < 1 {
                None
            } else {
                match (spec_file_index(t[di - 1]), spec_digit_value(t[di])) {
                    (Some(f), Some(d)) => {
                        if 1 <= d <= 8 {
                            let rank = match spec_piece_letter(t[0]) {
                                Some(rk) => rk,
                                None => Rank::Pawn,
                            };
                            let offset: int = if spec_piece_letter(t[0]) is Some {
                                1
                            } else {
                                0
                            };
                            let region = if offset <= di - 1 {
                                t.subrange(offset, di - 1)
                            } else {
                                Seq::empty()
                            };
                            match (spec_promo_of(t, di), spec_disambig(region)) {
                                (Some(promo), Some(fr)) => Some(
                                    MoveQuery::Move {
                                        dest: (f, (d - 1) as isize),
                                        rank,
                                        from_file: fr.0,
                                        from_row: fr.1,
                                        promotion: promo,
                                    },
                                ),
                                _ => None,
                            }
                        } else {
                            None
                        }
                    },
                    _ => None,
                }
            }
        },
    }
}

/// Relies on `String::push`: appends the given character to the end of
/// the string.
#[verifier::external_body]
fn push_char(s: &mut String, c: char)
    ensures
        final(s)@ == old(s)@.push(c),
{
    s.push(c);
}

/// The token's characters as a string, for error reports.
#[verifier::loop_isolation(false)]
fn chars_to_string(t: &Vec<char>) -> (r: String)
    ensures
        r@ == t@,
{
    let mut out = String::new();
    proof {
        assert(out@ =~= t@.take(0));
    }
    let mut i: usize = 0;
    while i < t.len()
        invariant
            0 <= i <= t@.len(),
            out@ == t@.take(i as int),
        decreases t@.len() - i,
    {
        push_char(&mut out, t[i]);
        proof {
            assert(out@ =~= t@.take(i + 1 as int));
        }
        i += 1;
    }
    proof {
        assert(t@.take(t@.len() as int) =~= t@);
    }
    out
}

/// An error message that names the offending token.
fn token_message(prefix: &str, token: &Vec<char>) -> (r: String)
    ensures
        r@ == prefix@ + token@,
{
    String::from_str(prefix).concat(chars_to_string(token).as_str())
}

/// Parses one half-move token into a query, exactly as
/// [`spec_parse_query`] reads it; a malformed token is a recoverable parse
/// error.
#[verifier::loop_isolation(false)]
pub fn parse_half_turn(half_turn: &Vec<char>) -> (r: Result<MoveQuery, String>)
    ensures
        match r {
            Ok(q) => spec_parse_query(half_turn@) == Some(q),
            Err(_) => spec_parse_query(half_turn@) is None,
        },
{
    let di = match find_last_digit(half_turn) {
        None => {
            // No digit: one of the two castling tokens.
            if half_turn.len() == 3 {
                return Ok(MoveQuery::Castle { kingside: true });
            } else if half_turn.len() == 5 {
                return Ok(MoveQuery::Castle { kingside: false });
            } else {
                return Err(token_message("invalid input: ", half_turn));
            }
        },
        Some(i) => i,
    };
    if di == 0 {
        return Err(token_message("unrecognized token: ", half_turn));
    }
    let dest_file = match crate::game::file_index(half_turn[di - 1]) {
        Some(f) => f,
        None => {
            return Err(token_message("unrecognized token: ", half_turn));
        },
    };
    let dest_digit = match crate::game::digit_value(half_turn[di]) {
        Some(d) => d,
        None => {
            return Err(token_message("unrecognized token: ", half_turn));
        },
    };
    if dest_digit < 1 || dest_digit > 8 {
        return Err(token_message("Row index out of bounds: ", half_turn));
    }
    let dest = (dest_file, dest_digit - 1);

    // A leading piece letter names the rank; a pawn move starts with its
    // file letter instead.
    let (rank, offset): (Rank, usize) = match piece_letter(half_turn[0]) {
        Some(rk) => (rk, 1),
        None => (Rank::Pawn, 0),
    };

    // A promotion rank follows `=` right after the destination digit.
    let mut promotion: Option<Rank> = None;
    if half_turn.len() >= 3 && di <= half_turn.len() - 3 {
        if half_turn[di + 1] == '=' {
            promotion = match piece_letter(half_turn[di + 2]) {
                Some(Rank::Queen) => Some(Rank::Queen),
                Some(Rank::Rook) => Some(Rank::Rook),
                Some(Rank::Bishop) => Some(Rank::Bishop),
                Some(Rank::Knight) => Some(Rank::Knight),
                _ => {
                    return Err(token_message("There are no such unit: ", half_turn));
                },
            };
        }
    }

    // The characters between the rank letter and the destination square
    // disambiguate the source; capture markers are skipped.
    let ghost spec_region: Seq<char> = if offset <= di - 1 {
        half_turn@.subrange(offset as int, di - 1)
    } else {
        Seq::empty()
    };
    let mut region: Vec<char> = Vec::new();
    if offset < di - 1 {
        let mut i: usize = offset;
        while i < di - 1
            invariant
                offset <= i <= di - 1,
                region@ == spec_without_x(half_turn@.subrange(offset as int, i as int)),
            decreases di - 1 - i,
        {
            let c = half_turn[i];
            if c != 'x' {
                region.push(c);
            }
            proof {
                assert(half_turn@.subrange(offset as int, i + 1 as int).drop_last()
                    =~= half_turn@.subrange(offset as int, i as int));
                assert(half_turn@.subrange(offset as int, i + 1 as int).last() == c);
            }
            i += 1;
        }
    }
    proof {
        if offset <= di - 1 {
            assert(half_turn@.subrange(offset as int, offset as int) =~= Seq::<char>::empty());
        }
        assert(region@ == spec_without_x(spec_region));
    }

    let (from_file, from_row): (Option<isize>, Option<isize>) = if region.len() == 0 {
        (None, None)
    } else if region.len() == 1 {
        match crate::game::file_index(region[0]) {
            Some(f) => (Some(f), None),
            None => {
                match crate::game::digit_value(region[0]) {
                    Some(d) => {
                        if d < 1 || d > 8 {
                            return Err(token_message("unrecognized token: ", half_turn));
                        }
                        (None, Some(d - 1))
                    },
                    None => {
                        return Err(token_message("unrecognized token: ", half_turn));
                    },
                }
            },
        }
    } else if region.len() == 2 {
        let f = match crate::game::file_index(region[0]) {
            Some(f) => f,
            None => {
                return Err(token_message("unrecognized token: ", half_turn));
            },
        };
        let d = match crate::game::digit_value(region[1]) {
            Some(d) => d,
            None => {
                return Err(token_message("unrecognized token: ", half_turn));
            },
        };
        if d < 1 || d > 8 {
            return Err(token_message("unrecognized token: ", half_turn));
        }
        (Some(f), Some(d - 1))
    } else {
        return Err(token_message("unrecognized token: ", half_turn));
    };
    Ok(MoveQuery::Move { dest, rank, from_file, from_row, promotion })
}

/// The same query with its disambiguators dropped: what the token asks
/// for by destination and rank alone.
pub open spec fn spec_base_of(q: MoveQuery) -> MoveQuery {
    match q {
        MoveQuery::Castle { kingside } => MoveQuery::Castle { kingside },
        MoveQuery::Move { dest, rank, from_file, from_row, promotion } => MoveQuery::Move {
            dest,
            rank,
            from_file: None,
            from_row: None,
            promotion,
        },
    }
}

/// The action a query resolves to among the legal moves: the single
/// candidate by destination and rank alone when exactly one remains;
/// otherwise the single candidate left after the disambiguators narrow the
/// set; otherwise none.
pub open spec fn spec_resolved_action(q: MoveQuery, all: Seq<Action>) -> Option<Action> {
    let base = spec_query_matches_of(spec_base_of(q), all);
    let full = spec_query_matches_of(q, all);
    if base.len() == 1 {
        Some(base[0])
    } else if full.len() == 1 {
        Some(full[0])
    } else {
        None
    }
}

/// The query without its disambiguators; see [`spec_base_of`].
fn base_of(query: &MoveQuery) -> (r: MoveQuery)
    ensures
        r == spec_base_of(*query),
{
    match query {
        MoveQuery::Castle { kingside } => MoveQuery::Castle { kingside: *kingside },
        MoveQuery::Move { dest, rank, from_file: _, from_row: _, promotion } => MoveQuery::Move {
            dest: *dest,
            rank: *rank,
            from_file: None,
            from_row: None,
            promotion: *promotion,
        },
    }
}

/// The actions of the vector answering the query, in order.
#[verifier::loop_isolation(false)]
fn collect_matches(query: &MoveQuery, all: &Vec<Action>) -> (r: Vec<Action>)
    ensures
        r@ == spec_query_matches_of(*query, all@),
{
    let mut candidates: Vec<Action> = Vec::new();
    let mut i: usize = 0;
    while i < all.len()
        invariant
            0 <= i <= all@.len(),
            candidates@ == spec_query_matches_of(*query, all@.take(i as int)),
        decreases all@.len() - i,
    {
        let a = all[i];
        if query_matches(query, &a) {
            candidates.push(a);
        }
        proof {
            assert(all@.take(i + 1 as int).drop_last() =~= all@.take(i as int));
            assert(all@.take(i + 1 as int).last() == a);
        }
        i += 1;
    }
    proof {
        assert(all@.take(all@.len() as int) =~= all@);
    }
    candidates
}

/// Picks the one legal action the query resolves to: the single candidate
/// by destination and rank when exactly one exists, and only among several
/// such candidates do the disambiguators narrow the choice; an error when
/// neither stage leaves exactly one.
pub fn resolve_query(game: &Game, query: &MoveQuery) -> (r: Result<Action, String>)
    requires
        game.wf(),
    ensures
        match r {
            Ok(a) => {
                &&& spec_resolved_action(*query, spec_all_moves(*game)) == Some(a)
                &&& exists|j: int|
                    0 <= j < spec_all_moves(*game).len() && spec_all_moves(*game)[j] == a
                &&& spec_action_sane(*game, a)
                &&& !crate::game::spec_in_check_after(*game, a)
            },
            Err(_) => spec_resolved_action(*query, spec_all_moves(*game)) is None,
        },
{
    let all = game.all_moves();
    let base_query = base_of(query);
    let candidates = collect_matches(&base_query, &all);
    if candidates.len() == 1 {
        let action = candidates[0];
        proof {
            lemma_query_matches_props(base_query, all@);
            crate::game::lemma_all_moves_sane(*game);
        }
        return Ok(action);
    }
    let narrowed = collect_matches(query, &all);
    if narrowed.len() == 1 {
        let action = narrowed[0];
        proof {
            lemma_query_matches_props(*query, all@);
            crate::game::lemma_all_moves_sane(*game);
        }
        return Ok(action);
    }
    Err(String::from_str("no single action matches the token"))
}

/// Whether an action answers a query; see [`spec_query_match`].
fn query_matches(query: &MoveQuery, a: &Action) -> (r: bool)
    ensures
        r == spec_query_match(*query, *a),
{
    match query {
        MoveQuery::Castle { kingside } => {
            let wanted_file: isize = if *kingside {
                6
            } else {
                2
            };
            let is_castle = match a.action_type {
                ActionType::Castling => true,
                _ => false,
            };
            is_castle && a.to.coordinate.0 == wanted_file
        },
        MoveQuery::Move { dest, rank, from_file, from_row, promotion: _ } => {
            let dest_ok = a.to.coordinate.0 == dest.0 && a.to.coordinate.1 == dest.1;
            let rank_ok = match a.from.piece {
                Some(p) => p.rank == *rank,
                None => false,
            };
            let file_ok = match from_file {
                Some(f) => a.from.coordinate.0 == *f,
                None => true,
            };
            let row_ok = match from_row {
                Some(rw) => a.from.coordinate.1 == *rw,
                None => true,
            };
            proof {
                if dest_ok {
                    assert(a.to.coordinate =~= *dest);
                }
            }
            dest_ok && rank_ok && file_ok && row_ok
        },
    }
}

/// What a half-move token decodes to against the current position: the
/// resolved action and, for a promotion, the rank the token itself names;
/// nothing when the token is malformed, when no single legal action answers
/// it, or when a promotion token names no rank.
pub open spec fn spec_decoded(g: Game, t: Seq<char>) -> Option<(Action, Option<Rank>)> {
    match spec_parse_query(t) {
        Some(q) => match spec_resolved_action(q, spec_all_moves(g)) {
            Some(a) => if a.action_type == ActionType::Promotion {
                match q {
                    MoveQuery::Move { promotion: Some(rk), .. } => Some((a, Some(rk))),
                    _ => None,
                }
            } else {
                Some((a, None))
            },
            None => None,
        },
        None => None,
    }
}

/// Decodes one half-move token against the current position, exactly as
/// [`spec_decoded`] reads it: the returned action is one of the side to
/// move's legal actions, and the returned rank accompanies exactly the
/// promotion actions and is the rank the token names — a promotion without
/// a named rank is an error, never a silent default.  Failures name the
/// offending token.
pub fn decode_half_turn(game: &Game, half_turn: &Vec<char>) -> (r: Result<
    (Action, Option<Rank>),
    String,
>)
    requires
        game.wf(),
    ensures
        match r {
            Ok(p) => {
                &&& spec_decoded(*game, half_turn@) == Some(p)
                &&& exists|j: int|
                    0 <= j < spec_all_moves(*game).len() && spec_all_moves(*game)[j] == p.0
                &&& spec_action_sane(*game, p.0)
                &&& !crate::game::spec_in_check_after(*game, p.0)
                &&& (p.1 is Some <==> p.0.action_type == ActionType::Promotion)
                &&& match p.1 {
                    Some(rk) => rk == Rank::Queen || rk == Rank::Rook || rk == Rank::Bishop || rk
                        == Rank::Knight,
                    None => true,
                }
            },
            Err(_) => spec_decoded(*game, half_turn@) is None,
        },
{
    let query = match parse_half_turn(half_turn) {
        Ok(q) => q,
        Err(e) => {
            return Err(e);
        },
    };
    let action = match resolve_query(game, &query) {
        Ok(a) => a,
        Err(_) => {
            return Err(token_message("no single action matches the token ", half_turn));
        },
    };
    let is_promotion = match action.action_type {
        ActionType::Promotion => true,
        _ => false,
    };
    let promotion_rank: Option<Rank> = if is_promotion {
        match query {
            MoveQuery::Move { promotion: Some(rk), .. } => Some(rk),
            _ => {
                return Err(token_message("promotion rank missing in token ", half_turn));
            },
        }
    } else {
        None
    };
    Ok((action, promotion_rank))
}
/// Strips `{...}` commentary from a transcript.
#[verifier::loop_isolation(false)]
fn strip_comments(text: &str) -> (r: Vec<char>)
    ensures
        r@ == spec_strip_comments(text@),
{
    let n = text.unicode_len();
    let mut acc: Vec<char> = Vec::new();
    let mut in_comment = false;
    let mut i: usize = 0;
    while i < n
        invariant
            0 <= i <= n,
            n == text@.len(),
            spec_strip_comments(text@) == spec_strip_from(text@, i as nat, in_comment, acc@),
        decreases n - i,
    {
        let c = text.get_char(i);
        if in_comment {
            if c == '}' {
                in_comment = false;
            }
        } else if c == '{' {
            in_comment = true;
        } else {
            acc.push(c);
        }
        i += 1;
    }
    acc
}

/// Whether the token holds a dash.
#[verifier::loop_isolation(false)]
fn contains_dash(t: &Vec<char>) -> (r: bool)
    ensures
        r == spec_contains_dash(t@),
{
    let mut i: usize = 0;
    while i < t.len()
        invariant
            0 <= i <= t@.len(),
            forall|j: int| 0 <= j < i ==> t@[j] != '-',
        decreases t@.len() - i,
    {
        if t[i] == '-' {
            return true;
        }
        i += 1;
    }
    false
}

/// Splits a transcript into its ordered half-move tokens: commentary goes,
/// each full-move group contributes its first two words, everything before
/// the first move number is dropped, and so is a trailing result token.
#[verifier::loop_isolation(false)]
pub fn transcript_half_turns(text: &str) -> (r: Vec<Vec<char>>)
    ensures
        r.deep_view() == spec_half_turns(text@),
{
    let content = strip_comments(text);
    let ghost stripped = content@;
    let mut acc: Vec<Vec<char>> = Vec::new();
    let mut cur: Vec<char> = Vec::new();
    let mut seen_dot = false;
    let mut words: usize = 0;
    proof {
        assert(acc.deep_view() =~~= Seq::<Seq<char>>::empty());
    }
    let mut i: usize = 0;
    while i < content.len()
        invariant
            0 <= i <= content@.len(),
            content@ == stripped,
            words <= 2,
            spec_turns_from(stripped, 0, false, 0, Seq::empty(), Seq::empty()) == spec_turns_from(
                stripped,
                i as nat,
                seen_dot,
                words as nat,
                cur@,
                acc.deep_view(),
            ),
        decreases content@.len() - i,
    {
        let ghost acc_before = acc.deep_view();
        let ghost cur_before = cur@;
        let c = content[i];
        if c == '.' {
            if seen_dot && words < 2 && cur.len() > 0 {
                acc.push(cur);
                cur = Vec::new();
                proof {
                    assert(acc.deep_view() =~~= acc_before.push(cur_before));
                }
            } else {
                cur = Vec::new();
            }
            seen_dot = true;
            words = 0;
        } else if is_space(c) {
            if cur.len() > 0 {
                if seen_dot && words < 2 {
                    acc.push(cur);
                    cur = Vec::new();
                    words += 1;
                    proof {
                        assert(acc.deep_view() =~~= acc_before.push(cur_before));
                    }
                } else {
                    cur = Vec::new();
                }
            }
        } else {
            cur.push(c);
        }
        i += 1;
    }
    if seen_dot && words < 2 && cur.len() > 0 {
        let ghost acc_before = acc.deep_view();
        let ghost cur_before = cur@;
        acc.push(cur);
        proof {
            assert(acc.deep_view() =~~= acc_before.push(cur_before));
        }
    }
    if acc.len() > 0 {
        let dash = contains_dash(&acc[acc.len() - 1]);
        proof {
            assert(acc.deep_view().last() == acc@[acc@.len() - 1]@);
        }
        if dash {
            let ghost acc_before = acc.deep_view();
            acc.pop();
            proof {
                assert(acc.deep_view() =~~= acc_before.drop_last());
            }
        }
    }
    acc
}

/// The state one token records for its ply.
pub fn notation_state(half_turn: &Vec<char>) -> (r: GameState)
    ensures
        r == spec_notation_state(half_turn@),
{
    if half_turn.len() == 0 {
        return GameState::Active;
    }
    let last = half_turn[half_turn.len() - 1];
    if last == '+' {
        GameState::Check
    } else if last == '#' {
        GameState::Checkmate
    } else {
        GameState::Active
    }
}

/// The position and action log reached by correctly replaying the first
/// `n` half-move tokens from a fresh game: each ply decodes its token,
/// against the position its predecessors produced, to exactly one legal
/// action, and performs it.  The position is determined up to the vector
/// holding its history.
pub open spec fn spec_replay_to(toks: Seq<Seq<char>>, n: nat, acts: Seq<Action>, g: Game) -> bool
    decreases n,
{
    if n == 0 {
        crate::game::spec_initial_game(g) && acts.len() == 0
    } else {
        &&& acts.len() == n
        &&& exists|prev: Game, pr: Option<Rank>|
            {
                &&& spec_replay_to(toks, (n - 1) as nat, acts.take(n - 1), prev)
                &&& spec_decoded(prev, toks[n - 1]) == Some((acts[n - 1], pr))
                &&& #[trigger] crate::game::spec_performed(prev, acts[n - 1], pr, g)
            }
    }
}

/// Whether the whole token list replays: every ply resolves to exactly one
/// legal action.
pub open spec fn spec_replay_possible(toks: Seq<Seq<char>>) -> bool {
    exists|acts: Seq<Action>, g: Game| spec_replay_to(toks, toks.len(), acts, g)
}

/// Whether `acts` is the action log of a full replay of the token list.
pub open spec fn spec_replay_log(toks: Seq<Seq<char>>, acts: Seq<Action>) -> bool {
    exists|g: Game| spec_replay_to(toks, toks.len(), acts, g)
}

/// Any replay of `n` tokens contains a replay of its first `m`.
proof fn lemma_replay_prefix(toks: Seq<Seq<char>>, n: nat, acts: Seq<Action>, g: Game, m: nat)
    requires
        spec_replay_to(toks, n, acts, g),
        m <= n,
    ensures
        exists|g2: Game| spec_replay_to(toks, m, acts.take(m as int), g2),
    decreases n,
{
    if m == n {
        assert(acts.take(n as int) =~= acts);
        assert(spec_replay_to(toks, m, acts.take(m as int), g));
    } else {
        let (prev, pr) = choose|prev: Game, pr: Option<Rank>|
            {
                &&& spec_replay_to(toks, (n - 1) as nat, acts.take(n - 1), prev)
                &&& spec_decoded(prev, toks[n - 1]) == Some((acts[n - 1], pr))
                &&& #[trigger] crate::game::spec_performed(prev, acts[n - 1], pr, g)
            };
        lemma_replay_prefix(toks, (n - 1) as nat, acts.take(n - 1), prev, m);
        let g2 = choose|g2: Game| #[trigger]
            spec_replay_to(toks, m, acts.take((n - 1) as int).take(m as int), g2);
        assert(acts.take((n - 1) as int).take(m as int) =~= acts.take(m as int));
        assert(spec_replay_to(toks, m, acts.take(m as int), g2));
    }
}

/// Games that agree on board, side to move, caches and history contents
/// decode a token identically.
proof fn lemma_decoded_same_fields(g1: Game, g2: Game, t: Seq<char>)
    requires
        g1.matrix == g2.matrix,
        g1.player == g2.player,
        g1.white_king_square == g2.white_king_square,
        g1.black_king_square == g2.black_king_square,
        g1.history@ == g2.history@,
    ensures
        spec_decoded(g1, t) == spec_decoded(g2, t),
{
    crate::game::lemma_all_moves_same_fields(g1, g2);
}

/// Replays of the same tokens agree: the action log is determined, and so
/// is every field of the final position up to the vector holding its
/// history.
proof fn lemma_replay_agrees(
    toks: Seq<Seq<char>>,
    n: nat,
    acts1: Seq<Action>,
    g1: Game,
    acts2: Seq<Action>,
    g2: Game,
)
    requires
        spec_replay_to(toks, n, acts1, g1),
        spec_replay_to(toks, n, acts2, g2),
    ensures
        acts1 == acts2,
        g1.matrix == g2.matrix,
        g1.player == g2.player,
        g1.white_king_square == g2.white_king_square,
        g1.black_king_square == g2.black_king_square,
        g1.history@ == g2.history@,
        g1.gamestate == g2.gamestate,
        g1.fifty_turn == g2.fifty_turn,
    decreases n,
{
    if n == 0 {
        assert(acts1 =~= acts2);
        assert forall|x: int, y: int|
            crate::game::in_bounds_xy(x, y) implies #[trigger] crate::game::board_sq(
            g1.matrix,
            x,
            y,
        ) == crate::game::board_sq(g2.matrix, x, y) by {}
        crate::game::lemma_matrix_determined(g1.matrix, g2.matrix);
        assert(g1.history@ =~= g2.history@);
        crate::game::lemma_state_after_same_fields(
            Game { gamestate: GameState::Active, ..g1 },
            Game { gamestate: GameState::Active, ..g2 },
        );
    } else {
        let (prev1, pr1) = choose|prev: Game, pr: Option<Rank>|
            {
                &&& spec_replay_to(toks, (n - 1) as nat, acts1.take(n - 1), prev)
                &&& spec_decoded(prev, toks[n - 1]) == Some((acts1[n - 1], pr))
                &&& #[trigger] crate::game::spec_performed(prev, acts1[n - 1], pr, g1)
            };
        let (prev2, pr2) = choose|prev: Game, pr: Option<Rank>|
            {
                &&& spec_replay_to(toks, (n - 1) as nat, acts2.take(n - 1), prev)
                &&& spec_decoded(prev, toks[n - 1]) == Some((acts2[n - 1], pr))
                &&& #[trigger] crate::game::spec_performed(prev, acts2[n - 1], pr, g2)
            };
        lemma_replay_agrees(toks, (n - 1) as nat, acts1.take(n - 1), prev1, acts2.take(n - 1), prev2);
        lemma_decoded_same_fields(prev1, prev2, toks[n - 1]);
        assert(spec_decoded(prev1, toks[n - 1]) == Some((acts1[n - 1], pr1)));
        assert(spec_decoded(prev2, toks[n - 1]) == Some((acts2[n - 1], pr2)));
        assert(spec_decoded(prev1, toks[n - 1]) == spec_decoded(prev2, toks[n - 1]));
        assert(acts1[n - 1] == acts2[n - 1] && pr1 == pr2);
        assert forall|j: int| 0 <= j < n implies acts1[j] == acts2[j] by {
            if j < n - 1 {
                assert(acts1.take(n - 1)[j] == acts2.take(n - 1)[j]);
            }
        }
        assert(acts1 =~= acts2);
        let a = acts1[n - 1];
        assert(crate::game::spec_game_after(prev1, a).white_king_square
            == crate::game::spec_game_after(prev2, a).white_king_square);
        assert(crate::game::spec_game_after(prev1, a).black_king_square
            == crate::game::spec_game_after(prev2, a).black_king_square);
        assert(g1.matrix == g2.matrix);
        assert(g1.history@ == g2.history@);
        let mid1 = Game { gamestate: prev1.gamestate, fifty_turn: prev1.fifty_turn, ..g1 };
        let mid2 = Game { gamestate: prev2.gamestate, fifty_turn: prev2.fifty_turn, ..g2 };
        crate::game::lemma_state_after_same_fields(mid1, mid2);
    }
}

/// A successful ply extends a replay by its decoded action.
proof fn lemma_replay_extend(
    toks: Seq<Seq<char>>,
    i: nat,
    acts: Seq<Action>,
    prev: Game,
    a: Action,
    pr: Option<Rank>,
    g2: Game,
)
    requires
        spec_replay_to(toks, i, acts, prev),
        spec_decoded(prev, toks[i as int]) == Some((a, pr)),
        crate::game::spec_performed(prev, a, pr, g2),
    ensures
        spec_replay_to(toks, i + 1, acts.push(a), g2),
{
    let acts2 = acts.push(a);
    assert(acts.len() == i);
    assert(acts2.take(i as int) =~= acts);
    assert(acts2[i as int] == a);
    assert(spec_replay_to(toks, i, acts2.take(i as int), prev));
    assert(spec_decoded(prev, toks[i as int]) == Some((acts2[i as int], pr)));
    assert(crate::game::spec_performed(prev, acts2[i as int], pr, g2));
}

/// A ply whose token does not decode blocks every full replay: any one
/// would decode this very token, against a position agreeing on every
/// field with the one reached here, to a unique action.
proof fn lemma_no_replay_when_ply_fails(toks: Seq<Seq<char>>, i: nat, acts: Seq<Action>, g: Game)
    requires
        spec_replay_to(toks, i, acts, g),
        i < toks.len(),
        spec_decoded(g, toks[i as int]) is None,
    ensures
        !spec_replay_possible(toks),
{
    if spec_replay_possible(toks) {
        let (all_acts, gfin) = choose|all_acts: Seq<Action>, gfin: Game|
            spec_replay_to(toks, toks.len(), all_acts, gfin);
        lemma_replay_prefix(toks, toks.len(), all_acts, gfin, i + 1);
        let gi1 = choose|g2: Game| #[trigger]
            spec_replay_to(toks, i + 1, all_acts.take(i + 1 as int), g2);
        let partial = all_acts.take(i + 1 as int);
        let (prev, pr) = choose|prev: Game, pr: Option<Rank>|
            {
                &&& spec_replay_to(toks, i, partial.take(i as int), prev)
                &&& spec_decoded(prev, toks[i as int]) == Some((partial[i as int], pr))
                &&& #[trigger] crate::game::spec_performed(prev, partial[i as int], pr, gi1)
            };
        lemma_replay_agrees(toks, i, partial.take(i as int), prev, acts, g);
        lemma_decoded_same_fields(prev, g, toks[i as int]);
        assert(false);
    }
}

/// Replays a whole transcript against a fresh game: decodes each half-move
/// token in order, performs it, and returns the action log together with
/// the per-ply states the notation records (for cross-checking against the
/// independently computed states).  It succeeds exactly when every token,
/// against the position its predecessors produced, resolves to exactly one
/// legal action, and the returned log is that unique replay; it fails on
/// the first token that does not, naming the token.
#[verifier::loop_isolation(false)]
#[verifier::rlimit(100)]
pub fn read_transcript(text: &str) -> (r: Result<(Vec<Action>, Vec<GameState>), String>)
    ensures
        r matches Ok(p) ==> p.0@.len() == spec_half_turns(text@).len(),
        r matches Ok(p) ==> p.1@.len() == spec_half_turns(text@).len(),
        r matches Ok(p) ==> forall|i: int|
            0 <= i < p.1@.len() ==> p.1@[i] == spec_notation_state(
                #[trigger] spec_half_turns(text@)[i],
            ),
        r matches Ok(p) ==> spec_replay_log(spec_half_turns(text@), p.0@),
        r is Err ==> !spec_replay_possible(spec_half_turns(text@)),
{
    let half_turns = transcript_half_turns(text);
    let ghost toks = spec_half_turns(text@);
    let mut actions: Vec<Action> = Vec::new();
    let mut states: Vec<GameState> = Vec::new();
    let mut game = Game::new();
    let mut i: usize = 0;
    while i < half_turns.len()
        invariant
            0 <= i <= half_turns@.len(),
            half_turns.deep_view() == toks,
            game.wf(),
            actions@.len() == i,
            states@.len() == i,
            forall|j: int| 0 <= j < i ==> states@[j] == spec_notation_state(#[trigger] toks[j]),
            spec_replay_to(toks, i as nat, actions@, game),
        decreases half_turns@.len() - i,
    {
        let token = &half_turns[i];
        proof {
            assert(half_turns@[i as int]@ == toks[i as int]);
        }
        let (action, promotion_rank) = match decode_half_turn(&game, token) {
            Ok(p) => p,
            Err(e) => {
                proof {
                    lemma_no_replay_when_ply_fails(toks, i as nat, actions@, game);
                }
                return Err(e);
            },
        };
        let ghost prev_game = game;
        let ghost acts_before = actions@;
        actions.push(action);
        match promotion_rank {
            Some(rank) => game.perform_promotion(action, rank),
            None => game.perform_action(action),
        }
        states.push(notation_state(token));
        proof {
            assert(crate::game::spec_performed(prev_game, action, promotion_rank, game));
            lemma_replay_extend(
                toks,
                i as nat,
                acts_before,
                prev_game,
                action,
                promotion_rank,
                game,
            );
            assert(actions@ =~= acts_before.push(action));
        }
        i += 1;
    }
    proof {
        assert(toks.len() == i as nat);
        assert(spec_replay_to(spec_half_turns(text@), spec_half_turns(text@).len(), actions@, game));
        assert(spec_replay_log(spec_half_turns(text@), actions@));
        assert(forall|j: int|
            0 <= j < states@.len() ==> states@[j] == spec_notation_state(
                #[trigger] spec_half_turns(text@)[j],
            ));
    }
    Ok((actions, states))
}

} // verus!
