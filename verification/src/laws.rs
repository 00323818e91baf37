//! Game-level laws, proved once and for all: runs of legal moves keep the two
//! boards disjoint, turns alternate starting with `R`, every accepted move
//! obeys the two-tier adjacency rule, and terminality reports wins and draws
//! exactly.

use vstd::prelude::*;

use crate::game::Action;
use crate::game::Player;
use crate::game::State;
use crate::game::step_rel;
use crate::grid::has_four_line;
use crate::grid::neighborhood;

verus! {

/// The state a game starts from: both boards empty, no previous action.
pub open spec fn is_initial(s: State) -> bool {
    &&& s.r_board@ == Set::<int>::empty()
    &&& s.b_board@ == Set::<int>::empty()
    &&& s.previous_action is None
}

/// A run of a game: `states[0]` stepped by `moves[i]` into `states[i + 1]`,
/// each move accepted by `step`.
pub open spec fn run_ok(states: Seq<State>, moves: Seq<Action>) -> bool {
    &&& states.len() == moves.len() + 1
    &&& forall|i: int|
        0 <= i < moves.len() ==> step_rel(#[trigger] states[i], moves[i], states[i + 1])
}

/// The opponent mapping is an involution: the opponent of the opponent of a
/// player is that player.
pub proof fn lemma_opponent_involutive(p: Player)
    ensures
        p.opponent_spec().opponent_spec() == p,
{
}

/// A single accepted move preserves well-formedness: the stone lands on an
/// empty cell of the mover's board, so the boards stay disjoint.
pub proof fn lemma_step_preserves_wf(pre: State, action: Action, post: State)
    requires
        pre.wf(),
        step_rel(pre, action, post),
    ensures
        post.wf(),
{
    let pos = action.position@;
    assert(!pre.r_board@.contains(pos) && !pre.b_board@.contains(pos));
    match action.player {
        Player::R => {
            assert(post.r_board@ == pre.r_board@.insert(pos));
            assert(post.b_board@ == pre.b_board@);
            assert forall|q: int| #[trigger] post.r_board@.contains(q) implies !post.b_board@
                .contains(q) by {}
        },
        Player::B => {
            assert(post.b_board@ == pre.b_board@.insert(pos));
            assert(post.r_board@ == pre.r_board@);
            assert forall|q: int| #[trigger] post.r_board@.contains(q) implies !post.b_board@
                .contains(q) by {}
        },
    }
}

/// Every state of a run is well-formed; in particular no cell is ever owned
/// by both players.
pub proof fn lemma_run_wf(states: Seq<State>, moves: Seq<Action>, i: int)
    requires
        run_ok(states, moves),
        is_initial(states[0]),
        0 <= i < states.len(),
    ensures
        states[i].wf(),
    decreases i,
{
    if i == 0 {
        assert(states[0].r_board@.disjoint(states[0].b_board@));
    } else {
        lemma_run_wf(states, moves, i - 1);
        lemma_step_preserves_wf(states[i - 1], moves[i - 1], states[i]);
    }
}

/// On a board with no previous action, only the designated first player `R`
/// may move.
pub proof fn lemma_first_move(s: State, action: Action)
    requires
        s.previous_action is None,
        s.move_allowed(action),
    ensures
        action.player == Player::R,
{
}

/// After an accepted move, the only moves the new state accepts are by the
/// opponent of the player who just moved.
pub proof fn lemma_turn_alternation(pre: State, action: Action, post: State, next: Action)
    requires
        step_rel(pre, action, post),
        post.move_allowed(next),
    ensures
        next.player == action.player.opponent_spec(),
{
}

/// Over a whole run: the first move is by `R`, and every later move is by the
/// opponent of the move before it.
pub proof fn lemma_run_alternation(states: Seq<State>, moves: Seq<Action>)
    requires
        run_ok(states, moves),
        is_initial(states[0]),
    ensures
        moves.len() > 0 ==> moves[0].player == Player::R,
        forall|i: int|
            0 < i < moves.len() ==> (#[trigger] moves[i]).player == moves[i
                - 1].player.opponent_spec(),
{
    if moves.len() > 0 {
        assert(step_rel(states[0], moves[0], states[1]));
        lemma_first_move(states[0], moves[0]);
    }
    assert forall|i: int| 0 < i < moves.len() implies (#[trigger] moves[i]).player == moves[i
        - 1].player.opponent_spec() by {
        assert(step_rel(states[i - 1], moves[i - 1], states[i]));
        assert(step_rel(states[i], moves[i], states[i + 1]));
        lemma_turn_alternation(states[i - 1], moves[i - 1], states[i], moves[i]);
    }
}

/// The adjacency law for any accepted move after the first: when the
/// opponent's last stone has at least one empty neighbour, the move is onto
/// one of those; when it has none, the move is onto an empty neighbour of the
/// mover's own stones.
pub proof fn lemma_adjacency_rule(pre: State, action: Action, post: State, prev: Action)
    requires
        pre.previous_action == Some(prev),
        step_rel(pre, action, post),
    ensures
        ({
            let open_neighbors = neighborhood(Set::<int>::empty().insert(prev.position@)).intersect(
                pre.empty_cells(),
            );
            if open_neighbors.is_empty() {
                neighborhood(pre.board_view(action.player)).intersect(pre.empty_cells()).contains(
                    action.position@,
                )
            } else {
                open_neighbors.contains(action.position@)
            }
        }),
{
    assert(action.player == pre.turn_spec());
}

/// Four in a line through the mover's stones is reported: such a state is
/// terminal, as a win.
pub proof fn lemma_win_detected(s: State, prev: Action)
    requires
        s.previous_action == Some(prev),
        has_four_line(s.board_view(prev.player)),
    ensures
        s.win_spec(),
        s.terminal_spec(),
{
}

/// A win created by a move runs through the placed stone: when the mover had
/// no four in a line before an accepted move but has one after it, some line
/// of four of the mover contains the new stone.
pub proof fn lemma_new_win_through_new_stone(pre: State, action: Action, post: State)
    requires
        step_rel(pre, action, post),
        !has_four_line(pre.board_view(action.player)),
        post.win_spec(),
    ensures
        exists|row: int, col: int, dr: int, dc: int|
            {
                &&& crate::grid::is_direction(dr, dc)
                &&& #[trigger] crate::grid::line4_at(
                    post.board_view(action.player),
                    row,
                    col,
                    dr,
                    dc,
                )
                &&& {
                    ||| crate::grid::cell(row, col) == action.position@
                    ||| crate::grid::cell(row + dr, col + dc) == action.position@
                    ||| crate::grid::cell(row + 2 * dr, col + 2 * dc) == action.position@
                    ||| crate::grid::cell(row + 3 * dr, col + 3 * dc) == action.position@
                }
            },
{
    let s_pre = pre.board_view(action.player);
    let s_post = post.board_view(action.player);
    let pos = action.position@;
    let (row, col, dr, dc) = choose|row: int, col: int, dr: int, dc: int|
        crate::grid::is_direction(dr, dc) && crate::grid::line4_at(s_post, row, col, dr, dc);
    if crate::grid::cell(row, col) != pos && crate::grid::cell(row + dr, col + dc) != pos
        && crate::grid::cell(row + 2 * dr, col + 2 * dc) != pos && crate::grid::cell(
        row + 3 * dr,
        col + 3 * dc,
    ) != pos {
        // all four cells predate the move, contradicting the fresh win
        assert(crate::grid::line4_at(s_pre, row, col, dr, dc));
        crate::grid::lemma_line_in_direction(s_pre, dr, dc);
    }
}

/// Without four in a line there is no win; with legal moves also left, the
/// state is not terminal at all. In particular three in a row ends nothing.
pub proof fn lemma_no_line_no_win(s: State, prev: Action)
    requires
        s.previous_action == Some(prev),
        !has_four_line(s.board_view(prev.player)),
    ensures
        !s.win_spec(),
        !s.next_positions_spec().is_empty() ==> !s.terminal_spec(),
{
}

/// Draw detection: once the two-tier move set of the player to move is
/// exhausted the state is terminal, and it is a draw (no win) whenever the
/// last mover holds no four in a line.
pub proof fn lemma_draw_detected(s: State, prev: Action)
    requires
        s.previous_action == Some(prev),
        s.next_positions_spec().is_empty(),
    ensures
        s.draw_spec(),
        s.terminal_spec(),
        !has_four_line(s.board_view(prev.player)) ==> !s.win_spec(),
{
}

} // verus!
