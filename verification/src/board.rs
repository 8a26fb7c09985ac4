//! The 24-point track with its bar: point occupancy, move legality and move
//! execution, including hitting and bearing off.

use vstd::prelude::*;

use crate::color::Color;

verus! {

/// The single error kind: a requested move failed legality. Always
/// recoverable; the board is left untouched when it is returned.
#[derive(Clone, Copy, Debug, PartialEq, Eq, Structural)]
pub struct InvalidMove;

/// Direction of travel: White advances toward larger indices, Black toward
/// smaller ones.
pub open spec fn sign(c: Color) -> int {
    match c {
        Color::White => 1,
        Color::Black => -1,
    }
}

/// The magnitude of a signed point value.
pub open spec fn abs_of(v: int) -> int {
    if v >= 0 {
        v
    } else {
        -v
    }
}

/// How many checkers of `c` a signed point value represents: positive values
/// are White stacks, negative values Black stacks.
pub open spec fn count_for(v: int, c: Color) -> int {
    match c {
        Color::White => if v > 0 {
            v
        } else {
            0
        },
        Color::Black => if v < 0 {
            -v
        } else {
            0
        },
    }
}

/// Checkers of `c` on the first `n` points of the track.
pub open spec fn sum_count(p: Seq<i32>, c: Color, n: int) -> int
    decreases n,
{
    if n <= 0 {
        0
    } else {
        sum_count(p, c, n - 1) + count_for(p[n - 1] as int, c)
    }
}

/// The home zone: the six points nearest a color's bear-off edge.
pub open spec fn in_home(c: Color, i: int) -> bool {
    match c {
        Color::White => 18 <= i < 24,
        Color::Black => 0 <= i < 6,
    }
}

/// A destination index past the board edge in `c`'s direction, denoting a
/// bear-off attempt.
pub open spec fn past_edge(c: Color, to: int) -> bool {
    match c {
        Color::White => to >= 24,
        Color::Black => to < 0,
    }
}

/// Which bar slot holds checkers of `c` that have been hit.
pub open spec fn bar_index(c: Color) -> int {
    match c {
        Color::White => 0,
        Color::Black => 1,
    }
}

/// The candidate destination when a checker of `c` on point `i` travels `v`
/// pips.
pub open spec fn target_index(c: Color, i: int, v: int) -> int {
    match c {
        Color::White => i + v,
        Color::Black => i - v,
    }
}

/// The pip count a checker on point `from` needs to reach the bear-off edge
/// exactly.
pub open spec fn bear_off_distance(player: Color, from: int) -> int {
    match player {
        Color::White => 24 - from,
        Color::Black => from + 1,
    }
}

pub proof fn lemma_sum_nonneg(p: Seq<i32>, c: Color, n: int)
    requires
        n <= p.len(),
    ensures
        0 <= sum_count(p, c, n),
    decreases n,
{
    if n > 0 {
        lemma_sum_nonneg(p, c, n - 1);
    }
}

pub proof fn lemma_count_le_sum(p: Seq<i32>, c: Color, i: int, n: int)
    requires
        0 <= i < n <= p.len(),
    ensures
        count_for(p[i] as int, c) <= sum_count(p, c, n),
    decreases n,
{
    if i == n - 1 {
        lemma_sum_nonneg(p, c, n - 1);
    } else {
        lemma_count_le_sum(p, c, i, n - 1);
    }
}

pub proof fn lemma_two_counts_le_sum(p: Seq<i32>, c: Color, i: int, j: int, n: int)
    requires
        0 <= i < n <= p.len(),
        0 <= j < n,
        i != j,
    ensures
        count_for(p[i] as int, c) + count_for(p[j] as int, c) <= sum_count(p, c, n),
    decreases n,
{
    if j == n - 1 {
        lemma_count_le_sum(p, c, i, n - 1);
    } else if i == n - 1 {
        lemma_count_le_sum(p, c, j, n - 1);
    } else {
        lemma_two_counts_le_sum(p, c, i, j, n - 1);
    }
}

/// Changing one point changes a color's track total by the difference the
/// point contributes.
pub proof fn lemma_sum_update(p: Seq<i32>, c: Color, i: int, v: i32, n: int)
    requires
        0 <= i < p.len(),
        n <= p.len(),
    ensures
        sum_count(p.update(i, v), c, n) == if i < n {
            sum_count(p, c, n) - count_for(p[i] as int, c) + count_for(v as int, c)
        } else {
            sum_count(p, c, n)
        },
    decreases n,
{
    if n > 0 {
        lemma_sum_update(p, c, i, v, n - 1);
    }
}

/// The track after `player` moves a checker from `from` to `to`, as
/// `make_move` performs it: the origin loses one checker; a past-edge
/// destination gains nothing (the checker leaves play); a lone opposing
/// checker at the destination is replaced by the mover's checker; otherwise
/// the destination gains one.
pub open spec fn moved_points(p: Seq<i32>, player: Color, from: int, to: int) -> Seq<i32> {
    let d = sign(player);
    let p1 = p.update(from, (p[from] as int - d) as i32);
    if past_edge(player, to) {
        p1
    } else if p1[to] as int == -d {
        p1.update(to, d as i32)
    } else {
        p1.update(to, (p1[to] as int + d) as i32)
    }
}

/// Whether the move lands on a lone opposing checker, sending it to the bar.
pub open spec fn is_hit(p: Seq<i32>, player: Color, from: int, to: int) -> bool {
    let d = sign(player);
    let p1 = p.update(from, (p[from] as int - d) as i32);
    !past_edge(player, to) && p1[to] as int == -d
}

/// The bar after the move: unchanged unless the move hits, in which case the
/// opponent's slot grows by one.
pub open spec fn moved_bar(p: Seq<i32>, bar: Seq<i32>, player: Color, from: int, to: int) -> Seq<
    i32,
> {
    if is_hit(p, player, from, to) {
        let oi = bar_index(player.spec_opposite());
        bar.update(oi, (bar[oi] as int + 1) as i32)
    } else {
        bar
    }
}

/// A point/bar snapshot that the conservation invariant can accept: right
/// lengths, no negative bar counts, and at most fifteen checkers per side in
/// play.
pub open spec fn layout_ok(p: Seq<i32>, bar: Seq<i32>) -> bool {
    &&& p.len() == 24
    &&& bar.len() == 2
    &&& 0 <= bar[0]
    &&& 0 <= bar[1]
    &&& sum_count(p, Color::White, 24) + bar[0] <= 15
    &&& sum_count(p, Color::Black, 24) + bar[1] <= 15
}

/// Checkers of `color` in a raw snapshot, summed without bounds assumptions.
fn track_sum(points: &Vec<i32>, color: Color) -> (n: u64)
    requires
        points@.len() == 24,
    ensures
        n as int == sum_count(points@, color, 24),
{
    let mut n: u64 = 0;
    let mut i: usize = 0;
    while i < 24
        invariant
            points@.len() == 24,
            i <= 24,
            n as int == sum_count(points@, color, i as int),
            n <= 0x8000_0000u64 * i,
        decreases 24 - i,
    {
        let v = points[i];
        let own_count: u64 = match color {
            Color::White => if v > 0 {
                v as u64
            } else {
                0
            },
            Color::Black => if v < 0 {
                -(v as i64) as u64
            } else {
                0
            },
        };
        n += own_count;
        i += 1;
    }
    n
}

/// The 24-point track plus the bar. The sign of `points[i]` encodes the
/// owner of point `i` (positive White, negative Black, zero empty) and its
/// magnitude the checker count there.
pub struct Board {
    /// Signed occupancy of the 24 points.
    pub points: Vec<i32>,
    /// Checkers sent to the bar by a hit: slot 0 holds White's, slot 1
    /// Black's.
    pub bar: Vec<i32>,
    /// Stacking-cap rule parameter: `Some(k)` forbids moving onto a point
    /// already holding `k` of the mover's own checkers. Standard play has no
    /// cap, so the opening board uses `None`.
    pub stack_cap: Option<usize>,
    /// How many checkers each side has borne off, `(White, Black)`:
    /// bookkeeping for the conservation invariant. Checkers borne off have no
    /// runtime representation.
    pub borne_off: Ghost<(int, int)>,
}

impl Board {
    /// Checkers of `c` anywhere on the 24-point track.
    pub open spec fn on_track(self, c: Color) -> int {
        sum_count(self.points@, c, 24)
    }

    /// Checkers of `c` waiting on the bar.
    pub open spec fn bar_count(self, c: Color) -> int {
        self.bar@[bar_index(c)] as int
    }

    /// Checkers of `c` already borne off.
    pub open spec fn spec_borne_off(self, c: Color) -> int {
        match c {
            Color::White => self.borne_off@.0,
            Color::Black => self.borne_off@.1,
        }
    }

    /// Shape and bounds of the representation.
    pub open spec fn wf(self) -> bool {
        &&& self.points@.len() == 24
        &&& self.bar@.len() == 2
        &&& forall|i: int| 0 <= i < 24 ==> -15 <= #[trigger] self.points@[i] <= 15
        &&& forall|i: int| 0 <= i < 2 ==> 0 <= #[trigger] self.bar@[i] <= 15
    }

    /// Conservation invariant: each side's fifteen checkers are on the track,
    /// on the bar, or borne off — nowhere else, and never lost or created.
    pub open spec fn inv(self) -> bool {
        &&& self.wf()
        &&& 0 <= self.spec_borne_off(Color::White)
        &&& 0 <= self.spec_borne_off(Color::Black)
        &&& self.on_track(Color::White) + self.bar_count(Color::White) + self.spec_borne_off(
            Color::White,
        ) == 15
        &&& self.on_track(Color::Black) + self.bar_count(Color::Black) + self.spec_borne_off(
            Color::Black,
        ) == 15
    }

    /// The owner of a point, read off the sign of its value.
    pub open spec fn spec_point_color(self, i: int) -> Option<Color> {
        let v = self.points@[i] as int;
        if v == 0 {
            None
        } else if v > 0 {
            Some(Color::White)
        } else {
            Some(Color::Black)
        }
    }

    /// Every checker of `c` still on the track lies in `c`'s home zone.
    /// Checkers on the bar or already borne off do not block this.
    pub open spec fn spec_home_complete(self, c: Color) -> bool {
        forall|i: int|
            0 <= i < 24 && !in_home(c, i) ==> count_for(#[trigger] self.points@[i] as int, c) == 0
    }

    /// Owner of `point`, or `None` when it is empty.
    pub fn get_point_color(&self, point: usize) -> (r: Option<Color>)
        requires
            self.wf(),
            point < 24,
        ensures
            r == self.spec_point_color(point as int),
    {
        let v = self.points[point];
        if v == 0 {
            None
        } else if v > 0 {
            Some(Color::White)
        } else {
            Some(Color::Black)
        }
    }

    /// How many checkers stand on `point`, whoever owns them.
    pub fn get_point_count(&self, point: usize) -> (r: usize)
        requires
            self.wf(),
            point < 24,
        ensures
            r == abs_of(self.points@[point as int] as int),
    {
        let v = self.points[point];
        if v >= 0 {
            v as usize
        } else {
            (-v) as usize
        }
    }

    /// The bar slot of `color`'s opponent: where a checker hit by `color`
    /// goes.
    pub fn opposite_bar_index(&self, color: Color) -> (r: usize)
        ensures
            r as int == bar_index(color.spec_opposite()),
    {
        match color {
            Color::White => 1,
            Color::Black => 0,
        }
    }

    /// The unit step `player` moves by: `+1` for White, `-1` for Black.
    pub fn direction(&self, player: Color) -> (d: i32)
        ensures
            d as int == sign(player),
    {
        if player == Color::White {
            1
        } else {
            -1
        }
    }

    /// The candidate destination `dice_roll_value` pips onward from `index`:
    /// a result outside `0..=23` signals a bear-off attempt to the caller.
    pub fn get_index(&self, color: Color, index: usize, dice_roll_value: usize) -> (r: i32)
        requires
            index < 24,
            dice_roll_value <= 6,
        ensures
            r as int == target_index(color, index as int, dice_roll_value as int),
    {
        match color {
            Color::White => index as i32 + dice_roll_value as i32,
            Color::Black => index as i32 - dice_roll_value as i32,
        }
    }

    /// The home zone of `player` as a half-open index interval.
    pub fn home(&self, player: Color) -> (r: (usize, usize))
        ensures
            forall|i: int| in_home(player, i) <==> r.0 <= i < r.1,
    {
        if player == Color::White {
            (18, 24)
        } else {
            (0, 6)
        }
    }

    /// One more than the stack height on `position`: the row where the next
    /// checker placed there would rest.
    pub fn get_next_free_row(&self, position: usize) -> (r: usize)
        requires
            self.wf(),
            position < 24,
        ensures
            r == abs_of(self.points@[position as int] as int) + 1,
    {
        self.get_point_count(position) + 1
    }

    /// True iff every checker of `color` on the track lies in `color`'s home
    /// zone, the precondition for bearing off.
    pub fn is_player_home_complete(&self, color: Color) -> (r: bool)
        requires
            self.wf(),
        ensures
            r == self.spec_home_complete(color),
    {
        let mut i: usize = 0;
        while i < 24
            invariant
                self.wf(),
                i <= 24,
                forall|j: int|
                    0 <= j < i && !in_home(color, j) ==> count_for(
                        #[trigger] self.points@[j] as int,
                        color,
                    ) == 0,
            decreases 24 - i,
        {
            let outside_home = match color {
                Color::White => i < 18,
                Color::Black => i >= 6,
            };
            if outside_home {
                let v = self.points[i];
                let own_here = match color {
                    Color::White => v > 0,
                    Color::Black => v < 0,
                };
                if own_here {
                    return false;
                }
            }
            i += 1;
        }
        true
    }

    /// Full legality of moving one of `player`'s checkers from point `from`
    /// to `to` (which may lie past the board edge, denoting a bear-off):
    /// the origin must hold the mover's checker; a past-edge destination is
    /// legal exactly when the mover's home is complete; an on-board
    /// destination must not be blocked by two or more opposing checkers, a
    /// hit must travel in the mover's direction, and the optional stacking
    /// cap must not be exceeded.
    pub open spec fn spec_can_move(self, player: Color, from: int, to: int) -> bool {
        &&& self.spec_point_color(from) == Some(player)
        &&& ({
            ||| (self.spec_home_complete(player) && past_edge(player, to))
            ||| ({
                &&& 0 <= to < 24
                &&& count_for(self.points@[to] as int, player.spec_opposite()) < 2
                &&& (count_for(self.points@[to] as int, player.spec_opposite()) == 1 ==> (if sign(
                    player,
                ) == 1 {
                    to > from
                } else {
                    to < from
                }))
                &&& (match self.stack_cap {
                    Some(k) => count_for(self.points@[to] as int, player) < k as int,
                    None => true,
                })
            })
        })
    }

    /// Decides move legality without touching the board.
    pub fn can_move_piece(&self, player: Color, from_point: usize, to_point: i32) -> (r: bool)
        requires
            self.wf(),
            from_point < 24,
        ensures
            r == self.spec_can_move(player, from_point as int, to_point as int),
    {
        let from_owned = match self.get_point_color(from_point) {
            Some(c) => c == player,
            None => false,
        };
        if !from_owned {
            return false;
        }
        let is_home_complete = self.is_player_home_complete(player);
        if is_home_complete && player == Color::White && to_point >= 24 {
            return true;
        }
        if is_home_complete && player == Color::Black && to_point < 0 {
            return true;
        }
        if to_point < 0 || to_point >= 24 {
            return false;
        }
        let to_u = to_point as usize;
        let opposite_color = player.opposite();
        let to_is_opponent = match self.get_point_color(to_u) {
            Some(c) => c == opposite_color,
            None => false,
        };
        let to_count = self.get_point_count(to_u);
        if to_is_opponent && to_count >= 2 {
            return false;
        }
        if to_is_opponent && to_count == 1 {
            if player == Color::White && to_u <= from_point {
                return false;
            }
            if player == Color::Black && to_u >= from_point {
                return false;
            }
        }
        if let Some(cap) = self.stack_cap {
            let own_count = if to_is_opponent {
                0
            } else {
                self.get_point_count(to_u)
            };
            if own_count >= cap {
                return false;
            }
        }
        true
    }

    /// Re-validates and then performs one move. On success the origin loses
    /// one checker and the destination is updated as `moved_points` says: a
    /// hit sends the lone opposing checker to the bar, a bear-off removes the
    /// checker from play. On failure the board is left untouched.
    pub fn make_move(&mut self, player: Color, from_position: usize, to_position: i32) -> (r:
        Result<(), InvalidMove>)
        requires
            old(self).inv(),
            from_position < 24,
        ensures
            final(self).inv(),
            final(self).stack_cap == old(self).stack_cap,
            r is Err <==> !old(self).spec_can_move(
                player,
                from_position as int,
                to_position as int,
            ),
            r is Err ==> *final(self) == *old(self),
            r is Ok ==> final(self).points@ == moved_points(
                old(self).points@,
                player,
                from_position as int,
                to_position as int,
            ),
            r is Ok ==> final(self).bar@ == moved_bar(
                old(self).points@,
                old(self).bar@,
                player,
                from_position as int,
                to_position as int,
            ),
            r is Ok ==> final(self).spec_borne_off(player) == old(self).spec_borne_off(player) + (
            if past_edge(player, to_position as int) {
                1int
            } else {
                0int
            }),
            final(self).spec_borne_off(player.spec_opposite()) == old(self).spec_borne_off(
                player.spec_opposite(),
            ),
            r is Ok ==> final(self).on_track(player) + final(self).bar_count(player) == old(
                self,
            ).on_track(player) + old(self).bar_count(player) - (if past_edge(
                player,
                to_position as int,
            ) {
                1int
            } else {
                0int
            }),
            r is Ok ==> final(self).on_track(player.spec_opposite()) + final(self).bar_count(
                player.spec_opposite(),
            ) == old(self).on_track(player.spec_opposite()) + old(self).bar_count(
                player.spec_opposite(),
            ),
    {
        if !self.can_move_piece(player, from_position, to_position) {
            return Err(InvalidMove);
        }
        let ghost opp = player.spec_opposite();
        let d = self.direction(player);
        let from_v = self.points[from_position];
        proof {
            // The origin holds the mover's checker, so its value is
            // player-signed and the decrement stays within bounds.
            assert(count_for(from_v as int, player) >= 1);
        }
        self.points.set(from_position, from_v - d);
        let ghost p1 = self.points@;
        proof {
            lemma_sum_update(old(self).points@, player, from_position as int, (from_v - d) as i32, 24);
            lemma_sum_update(old(self).points@, opp, from_position as int, (from_v - d) as i32, 24);
            assert(count_for((from_v - d) as int, player) == count_for(from_v as int, player) - 1);
            assert(count_for((from_v - d) as int, opp) == count_for(from_v as int, opp));
        }
        let bearing_off = (player == Color::White && to_position >= 24) || (player == Color::Black
            && to_position < 0);
        if bearing_off {
            self.borne_off = Ghost(
                match player {
                    Color::White => (self.borne_off@.0 + 1, self.borne_off@.1),
                    Color::Black => (self.borne_off@.0, self.borne_off@.1 + 1),
                },
            );
            return Ok(());
        }
        proof {
            // Not a bear-off, so legality pins the destination on the board.
            assert(0 <= to_position < 24);
        }
        let to_u = to_position as usize;
        let to_v = self.points[to_u];
        if to_v == -d {
            proof {
                // A lone opposing checker is hit: the destination differs
                // from the origin, whose value is player-signed.
                assert(to_u != from_position);
                assert(old(self).points@[to_u as int] == to_v);
                lemma_sum_update(p1, player, to_u as int, d, 24);
                lemma_sum_update(p1, opp, to_u as int, d, 24);
                lemma_count_le_sum(old(self).points@, opp, to_u as int, 24);
            }
            self.points.set(to_u, d);
            let bi = self.opposite_bar_index(player);
            let bar_v = self.bar[bi];
            self.bar.set(bi, bar_v + 1);
            Ok(())
        } else {
            proof {
                if to_u != from_position {
                    lemma_two_counts_le_sum(
                        old(self).points@,
                        player,
                        from_position as int,
                        to_u as int,
                        24,
                    );
                }
                lemma_sum_update(p1, player, to_u as int, (to_v + d) as i32, 24);
                lemma_sum_update(p1, opp, to_u as int, (to_v + d) as i32, 24);
            }
            self.points.set(to_u, to_v + d);
            Ok(())
        }
    }

    /// Checkers of `color` still in play: on the track or on the bar.
    pub fn checkers_remaining(&self, color: Color) -> (n: usize)
        requires
            self.wf(),
        ensures
            n as int == self.on_track(color) + self.bar_count(color),
    {
        let mut n: usize = 0;
        let mut i: usize = 0;
        while i < 24
            invariant
                self.wf(),
                i <= 24,
                n as int == sum_count(self.points@, color, i as int),
                n <= 15 * i,
            decreases 24 - i,
        {
            let v = self.points[i];
            let own_count: usize = match color {
                Color::White => if v > 0 {
                    v as usize
                } else {
                    0
                },
                Color::Black => if v < 0 {
                    (-v) as usize
                } else {
                    0
                },
            };
            n += own_count;
            i += 1;
        }
        let bar_slot: usize = match color {
            Color::White => 0,
            Color::Black => 1,
        };
        n + (self.bar[bar_slot] as usize)
    }

    /// Builds a board from a raw snapshot, together with the stacking-cap
    /// rule choice. Accepts exactly the layouts the conservation invariant
    /// can account for — right lengths, no negative bar counts, at most
    /// fifteen checkers per side in play — and rejects everything else.
    pub fn from_layout(points: Vec<i32>, bar: Vec<i32>, stack_cap: Option<usize>) -> (r: Option<
        Board,
    >)
        ensures
            match r {
                Some(b) => {
                    &&& layout_ok(points@, bar@)
                    &&& b.inv()
                    &&& b.points@ == points@
                    &&& b.bar@ == bar@
                    &&& b.stack_cap == stack_cap
                },
                None => !layout_ok(points@, bar@),
            },
    {
        if points.len() != 24 || bar.len() != 2 {
            return None;
        }
        let b0 = bar[0];
        let b1 = bar[1];
        if b0 < 0 || b1 < 0 {
            return None;
        }
        let white = track_sum(&points, Color::White);
        let black = track_sum(&points, Color::Black);
        proof {
            lemma_sum_nonneg(points@, Color::White, 24);
            lemma_sum_nonneg(points@, Color::Black, 24);
        }
        if white > 15 || black > 15 {
            return None;
        }
        if white + (b0 as u64) > 15 || black + (b1 as u64) > 15 {
            return None;
        }
        let ghost white_off = 15 - (white as int) - (b0 as int);
        let ghost black_off = 15 - (black as int) - (b1 as int);
        let board = Board { points, bar, stack_cap, borne_off: Ghost((white_off, black_off)) };
        proof {
            assert forall|i: int| 0 <= i < 24 implies -15 <= #[trigger] board.points@[i] <= 15 by {
                lemma_count_le_sum(board.points@, Color::White, i, 24);
                lemma_count_le_sum(board.points@, Color::Black, i, 24);
            }
        }
        Some(board)
    }

    /// All indices of points owned by `color`, in increasing order.
    pub fn get_points_for_color(&self, color: Color) -> (r: Vec<usize>)
        requires
            self.wf(),
        ensures
            forall|k: int| 0 <= k < r@.len() ==> #[trigger] r@[k] < 24,
            forall|k: int|
                0 <= k < r@.len() ==> self.spec_point_color(#[trigger] r@[k] as int) == Some(color),
            forall|k1: int, k2: int| 0 <= k1 < k2 < r@.len() ==> r@[k1] < r@[k2],
            forall|i: int|
                0 <= i < 24 && #[trigger] self.spec_point_color(i) == Some(color) ==> r@.contains(
                    i as usize,
                ),
    {
        let mut r: Vec<usize> = Vec::new();
        let mut i: usize = 0;
        while i < 24
            invariant
                self.wf(),
                i <= 24,
                forall|k: int| 0 <= k < r@.len() ==> #[trigger] r@[k] < i,
                forall|k: int|
                    0 <= k < r@.len() ==> self.spec_point_color(#[trigger] r@[k] as int) == Some(
                        color,
                    ),
                forall|k1: int, k2: int| 0 <= k1 < k2 < r@.len() ==> r@[k1] < r@[k2],
                forall|j: int|
                    0 <= j < i && #[trigger] self.spec_point_color(j) == Some(color)
                        ==> r@.contains(j as usize),
            decreases 24 - i,
        {
            let owned_here = match self.get_point_color(i) {
                Some(c) => c == color,
                None => false,
            };
            if owned_here {
                let ghost prev = r@;
                r.push(i);
                proof {
                    assert forall|j: usize| prev.contains(j) implies r@.contains(j) by {
                        let k = choose|k: int| 0 <= k < prev.len() && prev[k] == j;
                        assert(r@[k] == j);
                    }
                    assert(r@[r@.len() - 1] == i);
                }
            }
            i += 1;
        }
        r
    }
}

} // verus!
