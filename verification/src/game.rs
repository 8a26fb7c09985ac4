//! One match: the board, the dice queue of the current turn, the player to
//! move, and the roll log, together with move enumeration and orchestration.

use vstd::prelude::*;

use crate::board::{
    abs_of, bear_off_distance, count_for, in_home, moved_bar, moved_points, past_edge, sign,
    sum_count, target_index, Board, InvalidMove,
};
use crate::color::Color;

verus! {

/// One roll event as it happened: who rolled and the two face values.
/// Append-only history for audit and replay by a presentation layer.
#[derive(Clone)]
pub struct GameLogEntry {
    pub player: Color,
    pub dice_rolls: Vec<usize>,
}

/// A whole match: single instance, exclusively owned by the orchestrating
/// caller, mutated only through the operations below.
pub struct Game {
    pub board: Board,
    /// Unconsumed pip values of the current turn, at most four.
    pub dice_rolls: Vec<usize>,
    /// Whether dice have been rolled this turn; gates a UI, not legality.
    pub dice_rolled: bool,
    /// The color to move.
    pub player: Color,
    /// Append-only log of roll events.
    pub game_log: Vec<GameLogEntry>,
}

/// The standard opening layout: each side has two checkers on its far point,
/// five on its mid point, and five plus three nearer home.
pub open spec fn initial_points() -> Seq<i32> {
    seq![
        2i32,
        0i32,
        0i32,
        0i32,
        0i32,
        -5i32,
        0i32,
        -3i32,
        0i32,
        0i32,
        0i32,
        5i32,
        -5i32,
        0i32,
        0i32,
        0i32,
        3i32,
        0i32,
        5i32,
        0i32,
        0i32,
        0i32,
        0i32,
        -2i32,
    ]
}

/// A freshly constructed game: standard opening layout, nothing on the bar
/// or borne off, no stacking cap, White to move, no dice rolled, empty log.
pub open spec fn is_initial(g: Game) -> bool {
    &&& g.board.points@ == initial_points()
    &&& g.board.bar@ == seq![0i32, 0i32]
    &&& g.board.stack_cap is None
    &&& g.board.spec_borne_off(Color::White) == 0
    &&& g.board.spec_borne_off(Color::Black) == 0
    &&& g.player == Color::White
    &&& g.dice_rolls@ == Seq::<usize>::empty()
    &&& !g.dice_rolled
    &&& g.game_log@ == Seq::<GameLogEntry>::empty()
}

/// `(from, to)` is a move some available pip produces and the board accepts.
pub open spec fn move_allowed(
    b: Board,
    player: Color,
    rolls: Seq<usize>,
    from: int,
    to: int,
) -> bool {
    &&& 0 <= from < 24
    &&& exists|j: int|
        0 <= j < rolls.len() && to == target_index(player, from, #[trigger] rolls[j] as int)
    &&& b.spec_can_move(player, from, to)
}

/// A by-value copy of a pip queue, element for element.
fn copy_rolls(v: &Vec<usize>) -> (r: Vec<usize>)
    ensures
        r@ == v@,
{
    let mut r: Vec<usize> = Vec::new();
    proof {
        assert(r@ =~= v@.subrange(0, 0));
    }
    let mut i: usize = 0;
    while i < v.len()
        invariant
            i <= v@.len(),
            r@ == v@.subrange(0, i as int),
        decreases v@.len() - i,
    {
        r.push(v[i]);
        proof {
            assert(r@ =~= v@.subrange(0, i as int + 1));
        }
        i += 1;
    }
    proof {
        assert(r@ =~= v@);
    }
    r
}

/// Whether the pip queue holds `x`.
fn contains_value(v: &Vec<usize>, x: usize) -> (r: bool)
    ensures
        r == v@.contains(x),
{
    let mut i: usize = 0;
    while i < v.len()
        invariant
            i <= v@.len(),
            forall|j: int| 0 <= j < i ==> v@[j] != x,
        decreases v@.len() - i,
    {
        if v[i] == x {
            proof {
                assert(v@[i as int] == x);
            }
            return true;
        }
        i += 1;
    }
    false
}

/// Whether the enumerated move list holds a move starting at `from`.
fn any_move_from(moves: &Vec<(usize, i32)>, from: usize) -> (r: bool)
    ensures
        r == exists|k: int| 0 <= k < moves@.len() && (#[trigger] moves@[k]).0 == from,
{
    let mut i: usize = 0;
    while i < moves.len()
        invariant
            i <= moves@.len(),
            forall|k: int| 0 <= k < i ==> (#[trigger] moves@[k]).0 != from,
        decreases moves@.len() - i,
    {
        if moves[i].0 == from {
            proof {
                assert(moves@[i as int].0 == from);
            }
            return true;
        }
        i += 1;
    }
    false
}

/// Whether some available pip can pay for the move `from → to`: an on-board
/// move needs its exact travelled distance; a bear-off needs any pip at
/// least the distance to the edge.
pub open spec fn pip_available(rolls: Seq<usize>, player: Color, from: int, to: int) -> bool {
    if past_edge(player, to) {
        exists|j: int|
            0 <= j < rolls.len() && (#[trigger] rolls[j] as int) >= bear_off_distance(player, from)
    } else {
        rolls.contains(abs_of(to - from) as usize)
    }
}

/// The pip `apply_move` consumes for the move `from → to`: the travelled
/// distance for an on-board move; for a bear-off, the smallest available pip
/// that reaches the edge.
pub open spec fn is_consumed_pip(
    rolls: Seq<usize>,
    player: Color,
    from: int,
    to: int,
    p: usize,
) -> bool {
    if past_edge(player, to) {
        &&& rolls.contains(p)
        &&& p as int >= bear_off_distance(player, from)
        &&& forall|j: int|
            0 <= j < rolls.len() && (#[trigger] rolls[j] as int) >= bear_off_distance(player, from)
                ==> p <= rolls[j]
    } else {
        &&& p as int == abs_of(to - from)
        &&& rolls.contains(p)
    }
}

/// When `bear_off_piece(from, roll)` succeeds: the mover's home is complete,
/// `from` holds the mover's checker, the pip is available, and the roll
/// reaches the edge — exactly, or overshooting it when no on-board move
/// could use the pip and no checker of the mover stands farther back.
pub open spec fn spec_bear_off_allowed(g: Game, from: int, roll: usize) -> bool {
    let player = g.player;
    &&& g.board.spec_home_complete(player)
    &&& g.board.spec_point_color(from) == Some(player)
    &&& g.dice_rolls@.contains(roll)
    &&& roll as int >= bear_off_distance(player, from)
    &&& (roll as int > bear_off_distance(player, from) ==> {
        &&& !(exists|f: int|
            0 <= f < 24 && 0 <= target_index(player, f, roll as int) < 24
                && g.board.spec_can_move(
                player,
                f,
                #[trigger] target_index(player, f, roll as int),
            ))
        &&& forall|i: int|
            in_home(player, i) && count_for(#[trigger] g.board.points@[i] as int, player) > 0
                ==> bear_off_distance(player, i) <= bear_off_distance(player, from)
    })
}

proof fn lemma_initial_sums()
    ensures
        sum_count(initial_points(), Color::White, 24) == 15,
        sum_count(initial_points(), Color::Black, 24) == 15,
{
    reveal_with_fuel(sum_count, 25);
}

impl Game {
    /// Validity of the whole game state: the board invariant, and a dice
    /// queue of at most four face values.
    pub open spec fn inv(self) -> bool {
        &&& self.board.inv()
        &&& self.dice_rolls@.len() <= 4
        &&& forall|i: int| 0 <= i < self.dice_rolls@.len() ==> 1 <= #[trigger] self.dice_rolls@[i] <= 6
    }

    /// A new match with the standard opening layout, White to move.
    pub fn new() -> (g: Game)
        ensures
            g.inv(),
            is_initial(g),
    {
        let mut points: Vec<i32> = Vec::new();
        let mut i: usize = 0;
        while i < 24
            invariant
                points@.len() == i,
                i <= 24,
                forall|j: int| 0 <= j < i ==> points@[j] == 0,
            decreases 24 - i,
        {
            points.push(0);
            i += 1;
        }
        points.set(0, 2);
        points.set(23, -2);
        points.set(5, -5);
        points.set(18, 5);
        points.set(16, 3);
        points.set(7, -3);
        points.set(12, -5);
        points.set(11, 5);
        let mut bar: Vec<i32> = Vec::new();
        bar.push(0);
        bar.push(0);
        let board = Board { points, bar, stack_cap: None, borne_off: Ghost((0int, 0int)) };
        proof {
            assert(board.points@ =~= initial_points());
            assert(board.bar@ =~= seq![0i32, 0i32]);
            lemma_initial_sums();
        }
        Game {
            board,
            dice_rolls: Vec::new(),
            dice_rolled: false,
            player: Color::White,
            game_log: Vec::new(),
        }
    }

    /// A game over a caller-supplied board position, for resuming play or
    /// exercising positions that normal play reaches only slowly.
    pub fn from_board(board: Board, player: Color) -> (g: Game)
        requires
            board.inv(),
        ensures
            g.inv(),
            g.board == board,
            g.player == player,
            g.dice_rolls@ == Seq::<usize>::empty(),
            !g.dice_rolled,
            g.game_log@ == Seq::<GameLogEntry>::empty(),
    {
        Game { board, dice_rolls: Vec::new(), dice_rolled: false, player, game_log: Vec::new() }
    }

    /// Queues the two rolled face values as the turn's pips — four copies of
    /// the value on doubles — and appends the roll event to the log.
    pub fn apply_roll(&mut self, d1: usize, d2: usize)
        requires
            old(self).inv(),
            1 <= d1 <= 6,
            1 <= d2 <= 6,
        ensures
            final(self).inv(),
            final(self).board == old(self).board,
            final(self).player == old(self).player,
            final(self).dice_rolled,
            d1 == d2 ==> final(self).dice_rolls@ == seq![d1, d1, d1, d1],
            d1 != d2 ==> final(self).dice_rolls@ == seq![d1, d2],
            final(self).game_log@.len() == old(self).game_log@.len() + 1,
            final(self).game_log@.last().player == old(self).player,
            final(self).game_log@.last().dice_rolls@ == seq![d1, d2],
            forall|i: int|
                0 <= i < old(self).game_log@.len() ==> final(self).game_log@[i] == old(
                    self,
                ).game_log@[i],
    {
        let mut rolls: Vec<usize> = Vec::new();
        rolls.push(d1);
        if d1 == d2 {
            rolls.push(d1);
            rolls.push(d1);
            rolls.push(d1);
            proof {
                assert(rolls@ =~= seq![d1, d1, d1, d1]);
            }
        } else {
            rolls.push(d2);
            proof {
                assert(rolls@ =~= seq![d1, d2]);
            }
        }
        self.dice_rolls = rolls;
        self.dice_rolled = true;
        let mut rolled_pair: Vec<usize> = Vec::new();
        rolled_pair.push(d1);
        rolled_pair.push(d2);
        proof {
            assert(rolled_pair@ =~= seq![d1, d2]);
        }
        let player = self.player;
        self.game_log.push(GameLogEntry { player, dice_rolls: rolled_pair });
    }

    /// Removes exactly one occurrence of `value` from the dice queue — the
    /// first one — leaving the order and multiplicity of the remaining pips
    /// untouched.
    pub fn consume_pip(&mut self, value: usize)
        requires
            old(self).inv(),
            old(self).dice_rolls@.contains(value),
        ensures
            final(self).inv(),
            final(self).board == old(self).board,
            final(self).player == old(self).player,
            final(self).dice_rolled == old(self).dice_rolled,
            final(self).game_log == old(self).game_log,
            exists|i: int|
                {
                    &&& 0 <= i < old(self).dice_rolls@.len()
                    &&& old(self).dice_rolls@[i] == value
                    &&& (forall|j: int| 0 <= j < i ==> old(self).dice_rolls@[j] != value)
                    &&& final(self).dice_rolls@ == old(self).dice_rolls@.remove(i)
                },
    {
        let mut idx: usize = 0;
        while self.dice_rolls[idx] != value
            invariant
                *self == *old(self),
                old(self).inv(),
                old(self).dice_rolls@.contains(value),
                idx < self.dice_rolls@.len(),
                forall|j: int| 0 <= j < idx ==> self.dice_rolls@[j] != value,
            decreases self.dice_rolls@.len() - idx,
        {
            idx += 1;
            proof {
                let k = choose|k: int|
                    0 <= k < self.dice_rolls@.len() && self.dice_rolls@[k] == value;
                assert(k >= idx);
            }
        }
        self.dice_rolls.remove(idx);
        proof {
            assert(final(self).dice_rolls@ == old(self).dice_rolls@.remove(idx as int));
        }
    }

    /// Every legal `(origin, destination)` pair the given pips produce for
    /// `player`: the cross product of player-owned origins and pip values,
    /// filtered through move legality. A destination outside `0..=23` is a
    /// bear-off. A pair appears once per pip that produces it.
    pub fn get_possible_moves(&self, player: Color, dice_rolls: Vec<usize>) -> (moves: Vec<
        (usize, i32),
    >)
        requires
            self.board.wf(),
            forall|j: int| 0 <= j < dice_rolls@.len() ==> 1 <= #[trigger] dice_rolls@[j] <= 6,
        ensures
            forall|k: int|
                0 <= k < moves@.len() ==> move_allowed(
                    self.board,
                    player,
                    dice_rolls@,
                    (#[trigger] moves@[k]).0 as int,
                    moves@[k].1 as int,
                ),
            forall|f: int, t: int|
                #[trigger] move_allowed(self.board, player, dice_rolls@, f, t) ==> moves@.contains(
                    ((f as usize), (t as i32)),
                ),
    {
        let mut moves: Vec<(usize, i32)> = Vec::new();
        let indices = self.board.get_points_for_color(player);
        let mut a: usize = 0;
        while a < indices.len()
            invariant
                self.board.wf(),
                forall|j: int| 0 <= j < dice_rolls@.len() ==> 1 <= #[trigger] dice_rolls@[j] <= 6,
                a <= indices@.len(),
                forall|k: int| 0 <= k < indices@.len() ==> #[trigger] indices@[k] < 24,
                forall|k: int|
                    0 <= k < indices@.len() ==> self.board.spec_point_color(
                        #[trigger] indices@[k] as int,
                    ) == Some(player),
                forall|i: int|
                    0 <= i < 24 && #[trigger] self.board.spec_point_color(i) == Some(player)
                        ==> indices@.contains(i as usize),
                forall|k: int|
                    0 <= k < moves@.len() ==> move_allowed(
                        self.board,
                        player,
                        dice_rolls@,
                        (#[trigger] moves@[k]).0 as int,
                        moves@[k].1 as int,
                    ),
                forall|k: int, j: int|
                    0 <= k < a && 0 <= j < dice_rolls@.len() && self.board.spec_can_move(
                        player,
                        #[trigger] indices@[k] as int,
                        target_index(player, indices@[k] as int, #[trigger] dice_rolls@[j] as int),
                    ) ==> moves@.contains(
                        (
                            indices@[k],
                            target_index(
                                player,
                                indices@[k] as int,
                                dice_rolls@[j] as int,
                            ) as i32,
                        ),
                    ),
            decreases indices@.len() - a,
        {
            let index = indices[a];
            let mut b: usize = 0;
            while b < dice_rolls.len()
                invariant
                    self.board.wf(),
                    forall|j: int|
                        0 <= j < dice_rolls@.len() ==> 1 <= #[trigger] dice_rolls@[j] <= 6,
                    a < indices@.len(),
                    index == indices@[a as int],
                    index < 24,
                    b <= dice_rolls@.len(),
                    forall|k: int| 0 <= k < indices@.len() ==> #[trigger] indices@[k] < 24,
                    forall|k: int|
                        0 <= k < indices@.len() ==> self.board.spec_point_color(
                            #[trigger] indices@[k] as int,
                        ) == Some(player),
                    forall|k: int|
                        0 <= k < moves@.len() ==> move_allowed(
                            self.board,
                            player,
                            dice_rolls@,
                            (#[trigger] moves@[k]).0 as int,
                            moves@[k].1 as int,
                        ),
                    forall|k: int, j: int|
                        0 <= k < a && 0 <= j < dice_rolls@.len() && self.board.spec_can_move(
                            player,
                            #[trigger] indices@[k] as int,
                            target_index(
                                player,
                                indices@[k] as int,
                                #[trigger] dice_rolls@[j] as int,
                            ),
                        ) ==> moves@.contains(
                            (
                                indices@[k],
                                target_index(
                                    player,
                                    indices@[k] as int,
                                    dice_rolls@[j] as int,
                                ) as i32,
                            ),
                        ),
                    forall|j: int|
                        0 <= j < b && self.board.spec_can_move(
                            player,
                            index as int,
                            target_index(player, index as int, #[trigger] dice_rolls@[j] as int),
                        ) ==> moves@.contains(
                            (
                                index,
                                target_index(player, index as int, dice_rolls@[j] as int) as i32,
                            ),
                        ),
                decreases dice_rolls@.len() - b,
            {
                let next_index = self.board.get_index(player, index, dice_rolls[b]);
                if self.board.can_move_piece(player, index, next_index) {
                    let ghost prev = moves@;
                    moves.push((index, next_index));
                    proof {
                        assert forall|x: (usize, i32)| prev.contains(x) implies moves@.contains(
                            x,
                        ) by {
                            let k = choose|k: int| 0 <= k < prev.len() && prev[k] == x;
                            assert(moves@[k] == x);
                        }
                        assert(moves@[moves@.len() - 1] == (index, next_index));
                        assert(move_allowed(
                            self.board,
                            player,
                            dice_rolls@,
                            index as int,
                            next_index as int,
                        ));
                    }
                }
                b += 1;
            }
            a += 1;
        }
        proof {
            assert forall|f: int, t: int|
                #[trigger] move_allowed(self.board, player, dice_rolls@, f, t) implies moves@.contains(
                ((f as usize), (t as i32)),
            ) by {
                assert(self.board.spec_point_color(f) == Some(player));
                assert(indices@.contains(f as usize));
                let k = choose|k: int| 0 <= k < indices@.len() && indices@[k] == f as usize;
                let j = choose|j: int|
                    0 <= j < dice_rolls@.len() && t == target_index(
                        player,
                        f,
                        dice_rolls@[j] as int,
                    );
                assert(self.board.spec_can_move(
                    player,
                    indices@[k] as int,
                    target_index(player, indices@[k] as int, dice_rolls@[j] as int),
                ));
                assert(moves@.contains(
                    (
                        indices@[k],
                        target_index(player, indices@[k] as int, dice_rolls@[j] as int) as i32,
                    ),
                ));
            }
        }
        moves
    }

    /// Whether `player` has any legal move with the pips queued this turn.
    pub fn can_move(&self, player: Color) -> (r: bool)
        requires
            self.inv(),
        ensures
            r == exists|f: int, t: int|
                #[trigger] move_allowed(self.board, player, self.dice_rolls@, f, t),
    {
        let rolls = copy_rolls(&self.dice_rolls);
        let possible_moves = self.get_possible_moves(player, rolls);
        proof {
            if possible_moves@.len() > 0 {
                assert(move_allowed(
                    self.board,
                    player,
                    self.dice_rolls@,
                    possible_moves@[0].0 as int,
                    possible_moves@[0].1 as int,
                ));
            } else {
                if exists|f: int, t: int|
                    #[trigger] move_allowed(self.board, player, self.dice_rolls@, f, t) {
                    let (f, t) = choose|f: int, t: int|
                        #[trigger] move_allowed(self.board, player, self.dice_rolls@, f, t);
                    assert(possible_moves@.contains(((f as usize), (t as i32))));
                }
            }
        }
        possible_moves.len() > 0
    }

    /// The destinations reachable from `piece` with the pip values available
    /// this turn, duplicates from doubles collapsed: ascending for White and
    /// descending for Black — a display order, not a legality rule.
    pub fn get_possible_moves_for_piece(&self, player: Color, piece: usize) -> (r: Vec<i32>)
        requires
            self.inv(),
            piece < 24,
        ensures
            forall|k: int|
                0 <= k < r@.len() ==> move_allowed(
                    self.board,
                    player,
                    self.dice_rolls@,
                    piece as int,
                    #[trigger] r@[k] as int,
                ),
            forall|t: int|
                #[trigger] move_allowed(self.board, player, self.dice_rolls@, piece as int, t)
                    ==> r@.contains(t as i32),
            player == Color::White ==> forall|k1: int, k2: int|
                0 <= k1 < k2 < r@.len() ==> r@[k1] < r@[k2],
            player == Color::Black ==> forall|k1: int, k2: int|
                0 <= k1 < k2 < r@.len() ==> r@[k1] > r@[k2],
    {
        let mut r: Vec<i32> = Vec::new();
        let mut v: usize = 1;
        while v <= 6
            invariant
                self.inv(),
                piece < 24,
                1 <= v <= 7,
                forall|k: int|
                    0 <= k < r@.len() ==> move_allowed(
                        self.board,
                        player,
                        self.dice_rolls@,
                        piece as int,
                        #[trigger] r@[k] as int,
                    ),
                forall|k: int|
                    #![trigger r@[k]]
                    0 <= k < r@.len() ==> (if player == Color::White {
                        piece + 1 <= r@[k] as int && (r@[k] as int) < piece + v
                    } else {
                        piece - v < r@[k] as int && (r@[k] as int) <= piece - 1
                    }),
                player == Color::White ==> forall|k1: int, k2: int|
                    0 <= k1 < k2 < r@.len() ==> r@[k1] < r@[k2],
                player == Color::Black ==> forall|k1: int, k2: int|
                    0 <= k1 < k2 < r@.len() ==> r@[k1] > r@[k2],
                forall|j: int|
                    0 <= j < self.dice_rolls@.len() && (#[trigger] self.dice_rolls@[j]) < v
                        && self.board.spec_can_move(
                        player,
                        piece as int,
                        target_index(player, piece as int, self.dice_rolls@[j] as int),
                    ) ==> r@.contains(
                        target_index(player, piece as int, self.dice_rolls@[j] as int) as i32,
                    ),
            decreases 7 - v,
        {
            if contains_value(&self.dice_rolls, v) {
                let t = self.board.get_index(player, piece, v);
                if self.board.can_move_piece(player, piece, t) {
                    let ghost prev = r@;
                    r.push(t);
                    proof {
                        assert forall|x: i32| prev.contains(x) implies r@.contains(x) by {
                            let k = choose|k: int| 0 <= k < prev.len() && prev[k] == x;
                            assert(r@[k] == x);
                        }
                        assert(r@[r@.len() - 1] == t);
                        let j = choose|j: int|
                            0 <= j < self.dice_rolls@.len() && self.dice_rolls@[j] == v;
                        assert(move_allowed(
                            self.board,
                            player,
                            self.dice_rolls@,
                            piece as int,
                            t as int,
                        ));
                    }
                }
            }
            v += 1;
        }
        proof {
            assert forall|t: int|
                #[trigger] move_allowed(
                    self.board,
                    player,
                    self.dice_rolls@,
                    piece as int,
                    t,
                ) implies r@.contains(t as i32) by {
                let j = choose|j: int|
                    0 <= j < self.dice_rolls@.len() && t == target_index(
                        player,
                        piece as int,
                        self.dice_rolls@[j] as int,
                    );
                assert(self.dice_rolls@[j] < 7);
            }
        }
        r
    }

    /// For the current player, each point holding a checker that has a legal
    /// move, as a `[display position, stack height]` pair (display positions
    /// are one-based), in board order; beside them the bar placeholder pair.
    pub fn get_choosable_pieces(&self) -> (r: (Vec<[usize; 2]>, [usize; 2]))
        requires
            self.inv(),
        ensures
            r.1@[0] == 0usize && r.1@[1] == 0usize,
            forall|k: int|
                0 <= k < r.0@.len() ==> {
                    let p = (#[trigger] r.0@[k])@[0] as int - 1;
                    &&& 0 <= p < 24
                    &&& self.board.spec_point_color(p) == Some(self.player)
                    &&& r.0@[k]@[1] == abs_of(self.board.points@[p] as int)
                    &&& exists|t: int|
                        move_allowed(self.board, self.player, self.dice_rolls@, p, t)
                },
            forall|k1: int, k2: int| 0 <= k1 < k2 < r.0@.len() ==> r.0@[k1]@[0] < r.0@[k2]@[0],
            forall|i: int|
                0 <= i < 24 && #[trigger] self.board.spec_point_color(i) == Some(self.player) && (
                exists|t: int| move_allowed(self.board, self.player, self.dice_rolls@, i, t))
                    ==> exists|k: int| 0 <= k < r.0@.len() && (#[trigger] r.0@[k])@[0] == i + 1,
    {
        let mut choosable: Vec<[usize; 2]> = Vec::new();
        let rolls = copy_rolls(&self.dice_rolls);
        let possible_moves = self.get_possible_moves(self.player, rolls);
        let mut i: usize = 0;
        while i < 24
            invariant
                self.inv(),
                i <= 24,
                forall|k: int|
                    0 <= k < possible_moves@.len() ==> move_allowed(
                        self.board,
                        self.player,
                        self.dice_rolls@,
                        (#[trigger] possible_moves@[k]).0 as int,
                        possible_moves@[k].1 as int,
                    ),
                forall|f: int, t: int|
                    #[trigger] move_allowed(self.board, self.player, self.dice_rolls@, f, t)
                        ==> possible_moves@.contains(((f as usize), (t as i32))),
                forall|k: int|
                    0 <= k < choosable@.len() ==> {
                        let p = (#[trigger] choosable@[k])@[0] as int - 1;
                        &&& 0 <= p < i
                        &&& self.board.spec_point_color(p) == Some(self.player)
                        &&& choosable@[k]@[1] == abs_of(self.board.points@[p] as int)
                        &&& exists|t: int|
                            move_allowed(self.board, self.player, self.dice_rolls@, p, t)
                    },
                forall|k1: int, k2: int|
                    0 <= k1 < k2 < choosable@.len() ==> choosable@[k1]@[0] < choosable@[k2]@[0],
                forall|j: int|
                    0 <= j < i && #[trigger] self.board.spec_point_color(j) == Some(self.player)
                        && (exists|t: int|
                        move_allowed(self.board, self.player, self.dice_rolls@, j, t)) ==> exists|
                        k: int,
                    |
                        0 <= k < choosable@.len() && (#[trigger] choosable@[k])@[0] == j + 1,
            decreases 24 - i,
        {
            let owned_here = match self.board.get_point_color(i) {
                Some(c) => c == self.player,
                None => false,
            };
            if owned_here && any_move_from(&possible_moves, i) {
                let cnt = self.board.get_point_count(i);
                let ghost prev = choosable@;
                let entry = [i + 1, cnt];
                proof {
                    assert(entry@[0] == i + 1 && entry@[1] == cnt);
                    let k = choose|k: int|
                        0 <= k < possible_moves@.len() && (#[trigger] possible_moves@[k]).0 == i;
                    assert(move_allowed(
                        self.board,
                        self.player,
                        self.dice_rolls@,
                        i as int,
                        possible_moves@[k].1 as int,
                    ));
                }
                choosable.push(entry);
                proof {
                    assert(choosable@[choosable@.len() - 1] == entry);
                    assert(forall|k: int|
                        0 <= k < prev.len() ==> #[trigger] choosable@[k] == prev[k]);
                    assert forall|j: int|
                        0 <= j < i + 1 && #[trigger] self.board.spec_point_color(j) == Some(
                            self.player,
                        ) && (exists|t: int|
                            move_allowed(
                                self.board,
                                self.player,
                                self.dice_rolls@,
                                j,
                                t,
                            )) implies exists|k: int|
                        0 <= k < choosable@.len() && (#[trigger] choosable@[k])@[0] == j + 1 by {
                        if j == i as int {
                            assert(choosable@[choosable@.len() - 1]@[0] == i + 1);
                        } else {
                            let k = choose|k: int|
                                0 <= k < prev.len() && (#[trigger] prev[k])@[0] == j + 1;
                            assert(choosable@[k]@[0] == j + 1);
                        }
                    }
                }
            } else {
                proof {
                    if self.board.spec_point_color(i as int) == Some(self.player) && (exists|t: int|
                        move_allowed(self.board, self.player, self.dice_rolls@, i as int, t)) {
                        let t = choose|t: int|
                            move_allowed(self.board, self.player, self.dice_rolls@, i as int, t);
                        assert(possible_moves@.contains(((i as usize), (t as i32))));
                        assert(owned_here);
                        assert(false);
                    }
                }
            }
            i += 1;
        }
        (choosable, [0, 0])
    }

    /// Whether any checker of `player` has a legal on-board (not bear-off)
    /// move of exactly `v` pips.
    fn has_on_board_move(&self, player: Color, v: usize) -> (r: bool)
        requires
            self.board.wf(),
            1 <= v <= 6,
        ensures
            r == exists|f: int|
                0 <= f < 24 && 0 <= target_index(player, f, v as int) < 24
                    && self.board.spec_can_move(
                    player,
                    f,
                    #[trigger] target_index(player, f, v as int),
                ),
    {
        let mut f: usize = 0;
        while f < 24
            invariant
                self.board.wf(),
                1 <= v <= 6,
                f <= 24,
                forall|j: int|
                    0 <= j < f ==> !(0 <= target_index(player, j, v as int) < 24
                        && self.board.spec_can_move(
                        player,
                        j,
                        #[trigger] target_index(player, j, v as int),
                    )),
            decreases 24 - f,
        {
            let t = self.board.get_index(player, f, v);
            if t >= 0 && t < 24 && self.board.can_move_piece(player, f, t) {
                return true;
            }
            f += 1;
        }
        false
    }

    /// Validates and applies one move for the current player, then consumes
    /// the pip that paid for it: the travelled distance for an on-board
    /// move, or the smallest sufficient available pip for a bear-off.
    /// Rejected whole — board and dice untouched — when the board refuses
    /// the move or no available pip pays for it.
    pub fn apply_move(&mut self, from: usize, to: i32) -> (r: Result<(), InvalidMove>)
        requires
            old(self).inv(),
            from < 24,
        ensures
            final(self).inv(),
            final(self).player == old(self).player,
            final(self).dice_rolled == old(self).dice_rolled,
            final(self).game_log == old(self).game_log,
            final(self).board.stack_cap == old(self).board.stack_cap,
            r is Err ==> *final(self) == *old(self),
            r is Ok <==> (old(self).board.spec_can_move(old(self).player, from as int, to as int)
                && pip_available(old(self).dice_rolls@, old(self).player, from as int, to as int)),
            r is Ok ==> final(self).board.points@ == moved_points(
                old(self).board.points@,
                old(self).player,
                from as int,
                to as int,
            ),
            r is Ok ==> final(self).board.bar@ == moved_bar(
                old(self).board.points@,
                old(self).board.bar@,
                old(self).player,
                from as int,
                to as int,
            ),
            r is Ok ==> final(self).board.spec_borne_off(old(self).player) == old(
                self,
            ).board.spec_borne_off(old(self).player) + (if past_edge(old(self).player, to as int) {
                1int
            } else {
                0int
            }),
            r is Ok ==> exists|p: usize, i: int|
                {
                    &&& is_consumed_pip(
                        old(self).dice_rolls@,
                        old(self).player,
                        from as int,
                        to as int,
                        p,
                    )
                    &&& 0 <= i < old(self).dice_rolls@.len()
                    &&& old(self).dice_rolls@[i] == p
                    &&& (forall|j: int| 0 <= j < i ==> old(self).dice_rolls@[j] != p)
                    &&& final(self).dice_rolls@ == old(self).dice_rolls@.remove(i)
                },
    {
        let player = self.player;
        if !self.board.can_move_piece(player, from, to) {
            return Err(InvalidMove);
        }
        let bearing_off = (player == Color::White && to >= 24) || (player == Color::Black && to
            < 0);
        let pip: usize;
        if bearing_off {
            let dist: usize = match player {
                Color::White => 24 - from,
                Color::Black => from + 1,
            };
            proof {
                // The origin is the mover's and home is complete, so it lies
                // in the home zone and the distance is a die value.
                assert(in_home(player, from as int));
                assert(1 <= dist <= 6);
            }
            let mut v: usize = dist;
            while v <= 6 && !contains_value(&self.dice_rolls, v)
                invariant
                    *self == *old(self),
                    old(self).inv(),
                    dist <= v <= 7,
                    forall|j: int|
                        0 <= j < self.dice_rolls@.len() && dist <= (#[trigger] self.dice_rolls@[j])
                            ==> self.dice_rolls@[j] >= v,
                decreases 7 - v,
            {
                v += 1;
            }
            if v > 6 {
                proof {
                    if pip_available(self.dice_rolls@, player, from as int, to as int) {
                        let j = choose|j: int|
                            0 <= j < self.dice_rolls@.len() && (
                            #[trigger] self.dice_rolls@[j] as int) >= bear_off_distance(
                                player,
                                from as int,
                            );
                        assert(self.dice_rolls@[j] <= 6);
                        assert(false);
                    }
                }
                return Err(InvalidMove);
            }
            pip = v;
            proof {
                assert(self.dice_rolls@.contains(pip));
                assert(is_consumed_pip(self.dice_rolls@, player, from as int, to as int, pip));
            }
        } else {
            proof {
                assert(0 <= to < 24);
            }
            let to_u = to as usize;
            let dist: usize = if to_u >= from {
                to_u - from
            } else {
                from - to_u
            };
            if !contains_value(&self.dice_rolls, dist) {
                return Err(InvalidMove);
            }
            pip = dist;
            proof {
                assert(is_consumed_pip(self.dice_rolls@, player, from as int, to as int, pip));
            }
        }
        match self.board.make_move(player, from, to) {
            Ok(()) => {},
            Err(e) => {
                return Err(e);
            },
        }
        self.consume_pip(pip);
        Ok(())
    }

    /// Whether the match is over: one side has no checkers left in play —
    /// all fifteen are borne off.
    pub fn is_over(&self) -> (r: bool)
        requires
            self.inv(),
        ensures
            r == (self.board.on_track(Color::White) + self.board.bar_count(Color::White) == 0
                || self.board.on_track(Color::Black) + self.board.bar_count(Color::Black) == 0),
    {
        let white_left = self.board.checkers_remaining(Color::White);
        let black_left = self.board.checkers_remaining(Color::Black);
        white_left == 0 || black_left == 0
    }

    /// The side with all fifteen checkers borne off, if the match is over.
    pub fn winner(&self) -> (r: Option<Color>)
        requires
            self.inv(),
        ensures
            r == (if self.board.on_track(Color::White) + self.board.bar_count(Color::White) == 0 {
                Some(Color::White)
            } else if self.board.on_track(Color::Black) + self.board.bar_count(Color::Black)
                == 0 {
                Some(Color::Black)
            } else {
                None::<Color>
            }),
    {
        if self.board.checkers_remaining(Color::White) == 0 {
            Some(Color::White)
        } else if self.board.checkers_remaining(Color::Black) == 0 {
            Some(Color::Black)
        } else {
            None
        }
    }

    /// The home point of the current player that still holds one of their
    /// checkers and stands farthest from the bear-off edge — the highest
    /// point in traditional per-player numbering — with its raw value.
    pub fn highest_point_in_home_zone(&self) -> (r: (usize, i32))
        requires
            self.inv(),
            exists|i: int|
                in_home(self.player, i) && count_for(
                    #[trigger] self.board.points@[i] as int,
                    self.player,
                ) > 0,
        ensures
            in_home(self.player, r.0 as int),
            count_for(self.board.points@[r.0 as int] as int, self.player) > 0,
            r.1 == self.board.points@[r.0 as int],
            forall|i: int|
                in_home(self.player, i) && count_for(
                    #[trigger] self.board.points@[i] as int,
                    self.player,
                ) > 0 ==> bear_off_distance(self.player, i) <= bear_off_distance(
                    self.player,
                    r.0 as int,
                ),
    {
        match self.player {
            Color::White => {
                let mut i: usize = 18;
                loop
                    invariant
                        self.inv(),
                        self.player == Color::White,
                        18 <= i < 24,
                        exists|w: int|
                            in_home(self.player, w) && count_for(
                                #[trigger] self.board.points@[w] as int,
                                self.player,
                            ) > 0,
                        forall|j: int|
                            18 <= j < i ==> count_for(
                                #[trigger] self.board.points@[j] as int,
                                Color::White,
                            ) == 0,
                    decreases 24 - i,
                {
                    let v = self.board.points[i];
                    if v > 0 {
                        return (i, v);
                    }
                    proof {
                        assert(count_for(self.board.points@[i as int] as int, Color::White) == 0);
                        if i == 23 {
                            let w = choose|w: int|
                                in_home(self.player, w) && count_for(
                                    #[trigger] self.board.points@[w] as int,
                                    self.player,
                                ) > 0;
                            assert(false);
                        }
                    }
                    i += 1;
                }
            },
            Color::Black => {
                let mut i: usize = 5;
                loop
                    invariant
                        self.inv(),
                        self.player == Color::Black,
                        i <= 5,
                        exists|w: int|
                            in_home(self.player, w) && count_for(
                                #[trigger] self.board.points@[w] as int,
                                self.player,
                            ) > 0,
                        forall|j: int|
                            i < j < 6 ==> count_for(
                                #[trigger] self.board.points@[j] as int,
                                Color::Black,
                            ) == 0,
                    decreases i,
                {
                    let v = self.board.points[i];
                    if v < 0 {
                        return (i, v);
                    }
                    proof {
                        assert(count_for(self.board.points@[i as int] as int, Color::Black) == 0);
                        if i == 0 {
                            let w = choose|w: int|
                                in_home(self.player, w) && count_for(
                                    #[trigger] self.board.points@[w] as int,
                                    self.player,
                                ) > 0;
                            assert(false);
                        }
                    }
                    i -= 1;
                }
            },
        }
    }

    /// Bears a checker off `from` with the die value `roll`, handling the
    /// inexact-roll rule: an exact roll bears off directly; a roll larger
    /// than the needed distance is honoured only when no on-board move could
    /// use the pip and no checker of the mover stands farther back. Consumes
    /// the pip on success; rejected whole otherwise.
    pub fn bear_off_piece(&mut self, from: usize, roll: usize) -> (r: Result<(), InvalidMove>)
        requires
            old(self).inv(),
            from < 24,
            1 <= roll <= 6,
        ensures
            final(self).inv(),
            final(self).player == old(self).player,
            final(self).dice_rolled == old(self).dice_rolled,
            final(self).game_log == old(self).game_log,
            final(self).board.stack_cap == old(self).board.stack_cap,
            r is Err ==> *final(self) == *old(self),
            r is Ok <==> spec_bear_off_allowed(*old(self), from as int, roll),
            r is Ok ==> final(self).board.points@ == old(self).board.points@.update(
                from as int,
                (old(self).board.points@[from as int] as int - sign(old(self).player)) as i32,
            ),
            r is Ok ==> final(self).board.bar@ == old(self).board.bar@,
            r is Ok ==> final(self).board.spec_borne_off(old(self).player) == old(
                self,
            ).board.spec_borne_off(old(self).player) + 1,
            r is Ok ==> exists|i: int|
                {
                    &&& 0 <= i < old(self).dice_rolls@.len()
                    &&& old(self).dice_rolls@[i] == roll
                    &&& (forall|j: int| 0 <= j < i ==> old(self).dice_rolls@[j] != roll)
                    &&& final(self).dice_rolls@ == old(self).dice_rolls@.remove(i)
                },
    {
        let player = self.player;
        if !self.board.is_player_home_complete(player) {
            return Err(InvalidMove);
        }
        let from_owned = match self.board.get_point_color(from) {
            Some(c) => c == player,
            None => false,
        };
        if !from_owned {
            return Err(InvalidMove);
        }
        if !contains_value(&self.dice_rolls, roll) {
            return Err(InvalidMove);
        }
        let dist: usize = match player {
            Color::White => 24 - from,
            Color::Black => from + 1,
        };
        if roll < dist {
            return Err(InvalidMove);
        }
        if roll > dist {
            if self.has_on_board_move(player, roll) {
                return Err(InvalidMove);
            }
            proof {
                // The origin holds the mover's checker, and home is
                // complete, so the origin lies in the home zone.
                assert(in_home(player, from as int));
            }
            let (highest, _) = self.highest_point_in_home_zone();
            if highest != from {
                proof {
                    assert(bear_off_distance(player, highest as int) > bear_off_distance(
                        player,
                        from as int,
                    ));
                }
                return Err(InvalidMove);
            }
        }
        let edge: i32 = match player {
            Color::White => 24,
            Color::Black => -1,
        };
        match self.board.make_move(player, from, edge) {
            Ok(()) => {},
            Err(e) => {
                return Err(e);
            },
        }
        self.consume_pip(roll);
        Ok(())
    }

    /// Hands the turn to the other player: flips the color to move, clears
    /// the rolled flag and drops any unconsumed pips.
    pub fn switch_turn(&mut self)
        requires
            old(self).inv(),
        ensures
            final(self).inv(),
            final(self).board == old(self).board,
            final(self).player == old(self).player.spec_opposite(),
            !final(self).dice_rolled,
            final(self).dice_rolls@ == Seq::<usize>::empty(),
            final(self).game_log == old(self).game_log,
    {
        self.player = self.player.opposite();
        self.dice_rolled = false;
        self.dice_rolls = Vec::new();
    }
}

impl Default for Game {
    /// The same state as `Game::new`.
    fn default() -> (g: Game)
        ensures
            g.inv(),
            is_initial(g),
    {
        Game::new()
    }
}

} // verus!
