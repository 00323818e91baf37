//! Game state and the move engine: whose turn it is, which placements are
//! legal, how a move transforms the two boards, and when the game ends with a
//! four-in-a-line win or an adjacency draw.

use vstd::prelude::*;

use crate::board::Board;
use crate::board::Position;
use crate::board::bits_set;
use crate::board::get_bit;
use crate::board::lemma_full_view;
use crate::grid::grid_cells;
use crate::grid::has_four_line;
use crate::grid::lemma_line_in_direction;
use crate::grid::lemma_ray4;
use crate::grid::line4_at;
use crate::grid::neighborhood;
use crate::grid::shifted;

verus! {

/// One of the two players. `R` moves first.
#[derive(Clone, Copy, Debug, PartialEq, Eq, Structural)]
pub enum Player {
    R,
    B,
}

impl Player {
    /// The other player.
    pub open spec fn opponent_spec(self) -> Player {
        match self {
            Player::R => Player::B,
            Player::B => Player::R,
        }
    }

    /// The other player; applying this twice gives the player back.
    pub fn opponent(&self) -> (r: Player)
        ensures
            r == self.opponent_spec(),
    {
        match self {
            Player::R => Player::B,
            Player::B => Player::R,
        }
    }
}

/// A proposed placement: `player` puts a stone on `position`.
#[derive(Clone, Copy, Debug, PartialEq, Eq)]
pub struct Action {
    pub player: Player,
    pub position: Position,
}

/// Why `step` rejected a proposed action. The checks run in this order and
/// stop at the first failure.
#[derive(Clone, Copy, Debug, PartialEq, Eq)]
pub enum StepError {
    /// The acting player is not the player to move.
    WrongTurn,
    /// The target cell already holds a stone.
    Occupied,
    /// The target cell violates the adjacency rule.
    IllegalPosition,
}

/// A game position: one board of stones per player, and the most recently
/// applied action, if any. A `State` is an immutable value; `step` returns a
/// new one and never touches its receiver.
#[derive(Clone, Copy, Debug, PartialEq, Eq)]
pub struct State {
    pub r_board: Board,
    pub b_board: Board,
    pub previous_action: Option<Action>,
}

/// The eight shift directions, used to scan for four in a line.
#[derive(Clone, Copy)]
enum Heading {
    East,
    North,
    Northeast,
    Northwest,
    South,
    Southeast,
    Southwest,
    West,
}

impl Heading {
    spec fn dr(self) -> int {
        match self {
            Heading::East => 0,
            Heading::North => -1,
            Heading::Northeast => -1,
            Heading::Northwest => -1,
            Heading::South => 1,
            Heading::Southeast => 1,
            Heading::Southwest => 1,
            Heading::West => 0,
        }
    }

    spec fn dc(self) -> int {
        match self {
            Heading::East => 1,
            Heading::North => 0,
            Heading::Northeast => 1,
            Heading::Northwest => -1,
            Heading::South => 0,
            Heading::Southeast => 1,
            Heading::Southwest => -1,
            Heading::West => -1,
        }
    }

    fn shift(self, board: &Board) -> (r: Board)
        ensures
            r@ == shifted(board@, self.dr(), self.dc()),
    {
        match self {
            Heading::East => board.east(),
            Heading::North => board.north(),
            Heading::Northeast => board.northeast(),
            Heading::Northwest => board.northwest(),
            Heading::South => board.south(),
            Heading::Southeast => board.southeast(),
            Heading::Southwest => board.southwest(),
            Heading::West => board.west(),
        }
    }
}

/// Whether `board` holds four in a line along `heading`: the board is
/// intersected with its one-, two- and three-step shifts, so a surviving bit
/// is the final cell of a full line.
fn ray_hit(board: &Board, heading: Heading) -> (r: bool)
    ensures
        r == exists|row: int, col: int| #[trigger] line4_at(board@, row, col, heading.dr(), heading.dc()),
{
    let s1 = heading.shift(board);
    let s2 = heading.shift(&s1);
    let s3 = heading.shift(&s2);
    let w = board.intersect(s1).intersect(s2).intersect(s3);
    proof {
        lemma_ray4(board@, heading.dr(), heading.dc(), w@);
    }
    !w.is_empty()
}

/// Whether `board` holds four in a line in any of the eight directions.
fn four_in_line(board: &Board) -> (r: bool)
    ensures
        r == has_four_line(board@),
{
    let hit_e = ray_hit(board, Heading::East);
    let hit_n = ray_hit(board, Heading::North);
    let hit_ne = ray_hit(board, Heading::Northeast);
    let hit_nw = ray_hit(board, Heading::Northwest);
    let hit_s = ray_hit(board, Heading::South);
    let hit_se = ray_hit(board, Heading::Southeast);
    let hit_sw = ray_hit(board, Heading::Southwest);
    let hit_w = ray_hit(board, Heading::West);
    let r = hit_e || hit_n || hit_ne || hit_nw || hit_s || hit_se || hit_sw || hit_w;
    proof {
        if hit_e {
            lemma_line_in_direction(board@, Heading::East.dr(), Heading::East.dc());
        } else if hit_n {
            lemma_line_in_direction(board@, Heading::North.dr(), Heading::North.dc());
        } else if hit_ne {
            lemma_line_in_direction(board@, Heading::Northeast.dr(), Heading::Northeast.dc());
        } else if hit_nw {
            lemma_line_in_direction(board@, Heading::Northwest.dr(), Heading::Northwest.dc());
        } else if hit_s {
            lemma_line_in_direction(board@, Heading::South.dr(), Heading::South.dc());
        } else if hit_se {
            lemma_line_in_direction(board@, Heading::Southeast.dr(), Heading::Southeast.dc());
        } else if hit_sw {
            lemma_line_in_direction(board@, Heading::Southwest.dr(), Heading::Southwest.dc());
        } else if hit_w {
            lemma_line_in_direction(board@, Heading::West.dr(), Heading::West.dc());
        } else if has_four_line(board@) {
            let (row, col, dr, dc) = choose|row: int, col: int, dr: int, dc: int|
                crate::grid::is_direction(dr, dc) && line4_at(board@, row, col, dr, dc);
            assert(Heading::East.dr() == 0 && Heading::East.dc() == 1);
            assert(Heading::North.dr() == -1 && Heading::North.dc() == 0);
            assert(Heading::Northeast.dr() == -1 && Heading::Northeast.dc() == 1);
            assert(Heading::Northwest.dr() == -1 && Heading::Northwest.dc() == -1);
            assert(Heading::South.dr() == 1 && Heading::South.dc() == 0);
            assert(Heading::Southeast.dr() == 1 && Heading::Southeast.dc() == 1);
            assert(Heading::Southwest.dr() == 1 && Heading::Southwest.dc() == -1);
            assert(Heading::West.dr() == 0 && Heading::West.dc() == -1);
            assert(line4_at(board@, row, col, dr, dc));
            assert(false);
        }
    }
    r
}

impl State {
    /// The stones of `player`.
    pub open spec fn board_view(self, player: Player) -> Set<int> {
        match player {
            Player::R => self.r_board@,
            Player::B => self.b_board@,
        }
    }

    /// Cells holding a stone of either player.
    pub open spec fn occupied_cells(self) -> Set<int> {
        self.r_board@.union(self.b_board@)
    }

    /// Grid cells holding no stone.
    pub open spec fn empty_cells(self) -> Set<int> {
        grid_cells().difference(self.occupied_cells())
    }

    /// The player to move: the opponent of whoever moved last, or `R` on the
    /// first move.
    pub open spec fn turn_spec(self) -> Player {
        match self.previous_action {
            Some(action) => action.player.opponent_spec(),
            None => Player::R,
        }
    }

    /// The cells the player to move may choose from, before the first move
    /// simply the whole grid. After it, the two-tier adjacency rule: the empty
    /// neighbours of the opponent's last stone; or, when that stone has none,
    /// the empty neighbours of the mover's own stones.
    pub open spec fn next_positions_spec(self) -> Set<int> {
        match self.previous_action {
            None => grid_cells(),
            Some(prev) => {
                let tier1 = neighborhood(Set::<int>::empty().insert(prev.position@)).intersect(
                    self.empty_cells(),
                );
                if tier1.is_empty() {
                    neighborhood(self.board_view(self.turn_spec())).intersect(self.empty_cells())
                } else {
                    tier1
                }
            },
        }
    }

    /// Whether `action`'s position passes the adjacency rule (trivially true
    /// on the first move).
    pub open spec fn adjacency_ok(self, action: Action) -> bool {
        match self.previous_action {
            None => true,
            Some(_) => self.next_positions_spec().contains(action.position@),
        }
    }

    /// A legal move: the right player, onto an empty cell, respecting the
    /// adjacency rule.
    pub open spec fn move_allowed(self, action: Action) -> bool {
        &&& action.player == self.turn_spec()
        &&& self.empty_cells().contains(action.position@)
        &&& self.adjacency_ok(action)
    }

    /// Well-formedness of a reachable state: no cell is owned by both
    /// players, and the stone of the most recent action is on its player's
    /// board.
    pub open spec fn wf(self) -> bool {
        &&& self.r_board@.disjoint(self.b_board@)
        &&& match self.previous_action {
            Some(action) => self.board_view(action.player).contains(action.position@),
            None => true,
        }
    }

    /// The player of the most recent action holds four in a line.
    pub open spec fn win_spec(self) -> bool {
        match self.previous_action {
            None => false,
            Some(prev) => has_four_line(self.board_view(prev.player)),
        }
    }

    /// The player to move has no legal placement left. Deliberately, the game
    /// is drawn as soon as the adjacency-constrained move set is exhausted,
    /// even if unconstrained empty cells remain elsewhere on the board.
    pub open spec fn draw_spec(self) -> bool {
        self.previous_action is Some && self.next_positions_spec().is_empty()
    }

    /// The game is over: the last mover won, or no legal move remains.
    pub open spec fn terminal_spec(self) -> bool {
        self.win_spec() || self.draw_spec()
    }

    /// The initial state: both boards empty, no previous action, `R` to move.
    pub fn from_empty() -> (r: State)
        ensures
            r.r_board@ == Set::<int>::empty(),
            r.b_board@ == Set::<int>::empty(),
            r.previous_action is None,
            r.wf(),
            r.turn_spec() == Player::R,
    {
        proof {
            crate::board::lemma_zero_view();
        }
        State { r_board: Board::new(0), b_board: Board::new(0), previous_action: None }
    }

    /// The player to move.
    pub fn player(&self) -> (r: Player)
        ensures
            r == self.turn_spec(),
    {
        match self.previous_action {
            Some(action) => action.player.opponent(),
            None => Player::R,
        }
    }

    /// The cells holding no stone, as a board.
    pub fn empty_board(&self) -> (r: Board)
        ensures
            r@ == self.empty_cells(),
    {
        let r = self.b_board.union(self.r_board).complement();
        proof {
            assert(r@ =~= self.empty_cells());
        }
        r
    }

    /// The board of `player`.
    pub fn player_board(&self, player: Player) -> (r: Board)
        ensures
            r@ == self.board_view(player),
    {
        match player {
            Player::R => self.r_board,
            Player::B => self.b_board,
        }
    }

    /// The cells the player to move may choose from, as a board.
    fn next_action_board(&self) -> (r: Board)
        ensures
            r@ == self.next_positions_spec(),
    {
        if let Some(prev) = self.previous_action {
            let tier1 = Board::singleton(prev.position).neighbors().intersect(self.empty_board());
            if tier1.is_empty() {
                self.player_board(self.player()).neighbors().intersect(self.empty_board())
            } else {
                tier1
            }
        } else {
            proof {
                lemma_full_view();
            }
            Board::new(0x1FFFFFFFFFFFF)
        }
    }

    /// Whether the game just ended: the most recent mover holds four in a
    /// line, or the player to move has no legal placement.
    fn is_done(&self) -> (r: bool)
        ensures
            r == self.terminal_spec(),
    {
        if let Some(prev) = self.previous_action {
            let mover = self.player_board(prev.player);
            four_in_line(&mover) || self.next_action_board().is_empty()
        } else {
            false
        }
    }

    /// The cells the player to move may choose from, as positions in
    /// ascending order.
    pub fn next_action(&self) -> (r: Vec<Position>)
        ensures
            forall|i: int|
                0 <= i < r@.len() ==> self.next_positions_spec().contains(#[trigger] r@[i]@),
            forall|p: int|
                #[trigger] self.next_positions_spec().contains(p) ==> exists|i: int|
                    0 <= i < r@.len() && r@[i]@ == p,
            forall|i: int, j: int| 0 <= i < j < r@.len() ==> r@[i]@ < r@[j]@,
    {
        let board = self.next_action_board();
        let mut bits = board.to_u64();
        let ghost target = self.next_positions_spec();
        let mut result: Vec<Position> = Vec::new();
        while bits != 0
            invariant
                bits < 0x2000000000000,
                forall|p: int| #[trigger] bits_set(bits).contains(p) ==> target.contains(p),
                forall|p: int|
                    #[trigger] target.contains(p) ==> bits_set(bits).contains(p) || exists|i: int|
                        0 <= i < result@.len() && result@[i]@ == p,
                forall|i: int|
                    0 <= i < result@.len() ==> target.contains(#[trigger] result@[i]@),
                forall|i: int, p: int|
                    0 <= i < result@.len() && #[trigger] bits_set(bits).contains(p)
                        ==> #[trigger] result@[i]@ < p,
                forall|i: int, j: int| 0 <= i < j < result@.len() ==> result@[i]@ < result@[j]@,
            decreases bits,
        {
            let low: u32 = bits.trailing_zeros();
            proof {
                vstd::std_specs::bits::axiom_u64_trailing_zeros(bits);
                let t = low as u64;
                let v = bits;
                assert(t < 49 && get_bit(v, t)) by (bit_vector)
                    requires
                        v != 0,
                        v < 0x2000000000000,
                        t < 64,
                        (v >> t) & 1u64 == 1u64,
                ;
                assert((v & ((v - 1) as u64)) < v && forall|p: u64|
                    p < 64 ==> #[trigger] get_bit(v & ((v - 1) as u64), p) == (get_bit(v, p) && p
                        != t)) by (bit_vector)
                    requires
                        v != 0,
                        t < 64,
                        (v >> t) & 1u64 == 1u64,
                        v << ((64 - t) as u64) == 0u64,
                ;
            }
            let ghost pre_seq = result@;
            result.push(Position::new(low as u64));
            proof {
                let t = low as u64;
                let old_set = bits_set(bits);
                let new_set = bits_set(bits & ((bits - 1) as u64));
                assert(old_set.contains(t as int));
                assert(result@ == pre_seq.push(result@[pre_seq.len() as int]));
                assert(result@[pre_seq.len() as int]@ == t as int);
                assert forall|p: int| #[trigger] new_set.contains(p) implies old_set.contains(p)
                    && p != t by {}
                assert forall|p: int| old_set.contains(p) && p != t implies new_set.contains(
                    p,
                ) by {}
                assert forall|p: int| #[trigger] old_set.contains(p) && p != t implies t < p by {
                    let pu = p as u64;
                    assert(forall|j: u64| j < t ==> (bits >> j) & 1u64 == 0u64);
                    assert(pu >= t);
                }
                assert forall|p: int|
                    #[trigger] target.contains(p) && !new_set.contains(p) implies exists|i: int|
                        0 <= i < result@.len() && result@[i]@ == p by {
                    if p == t as int {
                        assert(result@[pre_seq.len() as int]@ == p);
                    } else {
                        assert(!old_set.contains(p));
                        let i = choose|i: int| 0 <= i < pre_seq.len() && pre_seq[i]@ == p;
                        assert(result@[i]@ == p);
                    }
                }
            }
            bits = bits & (bits - 1);
        }
        proof {
            crate::board::lemma_zero_view();
        }
        result
    }

    /// Validate `action` against the current position and apply it. On
    /// success the new state (the mover's stone added, the action recorded)
    /// is returned together with the terminality of that new state; the
    /// receiver is never changed, and on failure the error says which of the
    /// three ordered legality checks failed first.
    pub fn step(&self, action: &Action) -> (r: Result<(State, bool), StepError>)
        ensures
            match r {
                Result::Ok(outcome) => {
                    &&& step_rel(*self, *action, outcome.0)
                    &&& outcome.1 == outcome.0.terminal_spec()
                    &&& self.wf() ==> outcome.0.wf()
                },
                Result::Err(e) => {
                    &&& !self.move_allowed(*action)
                    &&& (e == StepError::WrongTurn <==> action.player != self.turn_spec())
                    &&& (e == StepError::Occupied <==> action.player == self.turn_spec()
                        && !self.empty_cells().contains(action.position@))
                    &&& (e == StepError::IllegalPosition <==> action.player == self.turn_spec()
                        && self.empty_cells().contains(action.position@) && !self.adjacency_ok(
                        *action,
                    ))
                },
            },
    {
        let turn = self.player();
        if turn != action.player {
            return Result::Err(StepError::WrongTurn);
        }
        let empty = self.empty_board();
        if !empty.get(action.position) {
            return Result::Err(StepError::Occupied);
        }
        if let Some(prev) = self.previous_action {
            let neighbors = Board::singleton(prev.position).neighbors();
            let tier1 = neighbors.intersect(empty);
            if tier1.is_empty() {
                let own_reach = self.player_board(action.player).neighbors();
                if !own_reach.get(action.position) {
                    return Result::Err(StepError::IllegalPosition);
                }
            } else {
                if !neighbors.get(action.position) {
                    return Result::Err(StepError::IllegalPosition);
                }
            }
        }
        let placed = Board::singleton(action.position);
        let new_state = match action.player {
            Player::R => State {
                r_board: self.r_board.union(placed),
                b_board: self.b_board,
                previous_action: Some(*action),
            },
            Player::B => State {
                r_board: self.r_board,
                b_board: self.b_board.union(placed),
                previous_action: Some(*action),
            },
        };
        proof {
            assert(new_state.board_view(action.player) =~= self.board_view(
                action.player,
            ).insert(action.position@));
            if self.wf() {
                assert(new_state.r_board@.disjoint(new_state.b_board@));
            }
        }
        let done = new_state.is_done();
        Result::Ok((new_state, done))
    }
}

/// The transition relation of a successful `step`: the move was legal, the
/// mover's board gains exactly the placed stone, the opponent's board is
/// untouched, and the action is recorded as most recent.
pub open spec fn step_rel(pre: State, action: Action, post: State) -> bool {
    &&& pre.move_allowed(action)
    &&& post.previous_action == Some(action)
    &&& post.board_view(action.player) == pre.board_view(action.player).insert(action.position@)
    &&& post.board_view(action.player.opponent_spec()) == pre.board_view(
        action.player.opponent_spec(),
    )
}

} // verus!
