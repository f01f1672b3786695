//! The game state and the per-tick movement engine: the snake polyline is
//! trimmed at the tail and extended at the head by the distance travelled,
//! with a boundary rule that sweeps the body back and forth between the
//! horizontal edges of the play field.

use crate::num::{lemma_div_monotone, lemma_mul_div_cancel, lemma_sqrt_floor_correct, SCALE};
use crate::segment::{seg_len, Segment};
use crate::vector::{
    len_sq, scale_comp, spec_add, spec_normalize, spec_scale, spec_sub, Vector,
};
use vstd::prelude::*;

verus! {

/// Snake coordinates handed to [`Game::process`] must lie within this bound.
pub const COORD_LIMIT: i64 = 0x100_0000_0000_0000;

/// The direction's coordinates and the distance travelled in one tick must
/// lie within this bound.
pub const MOVE_LIMIT: i64 = 2_000_000_000_000;

/// Half a world unit, in subunits: the offset from a grid line to the centre
/// of a cell.
pub const HALF_SCALE: i64 = 5_000_000;

/// `width` or `height` in subunits: the fixed-point extent of the play field.
pub open spec fn field_fp(cells: int) -> int {
    cells * SCALE
}

/// `round(w / 2)`, with halves rounded away from zero.
pub open spec fn round_half(w: int) -> int {
    if w % 2 == 0 {
        w / 2
    } else if w > 0 {
        (w + 1) / 2
    } else {
        (w - 1) / 2
    }
}

/// The centre coordinate of the middle grid cell of an extent of `w` cells:
/// cell centres sit at half-integers.
pub open spec fn center_coord(w: int) -> int {
    round_half(w) * SCALE - HALF_SCALE
}

/// The displacement by which a tail point is moved: the segment's direction,
/// normalized and scaled by the remaining distance `d`.
pub open spec fn move_delta(p: Vector, n: Vector, d: int) -> Vector {
    spec_scale(spec_normalize(spec_sub(n, p)), d)
}

/// The boundary rule's first arm: the point is moved *against* the segment
/// direction (and the sweep turns to `revert == false`) when the forward
/// vertex has reached the right edge, or when the sweep already runs that way
/// and the vertex is still right of the left edge.
pub open spec fn sweep_back(revert: bool, nx: int, wfp: int) -> bool {
    wfp <= nx || (!revert && nx > 0)
}

/// Trims the tail of the snake by `d`: vertices are consumed from the tail
/// end until the remaining distance ends inside a segment; the new tail point
/// is then placed by the boundary rule, which also fixes the new sweep flag.
pub open spec fn trim_tail(s: Seq<Vector>, d: int, revert: bool, wfp: int) -> (Seq<Vector>, bool)
    decreases s.len(),
{
    if s.len() <= 1 {
        (s, revert)
    } else {
        let p = s[0];
        let n = s[1];
        let l = seg_len(p, n);
        if l >= d {
            let mv = move_delta(p, n, d);
            if sweep_back(revert, n.x as int, wfp) {
                (seq![spec_sub(p, mv)] + s.drop_first(), false)
            } else {
                (seq![spec_add(p, mv)] + s.drop_first(), true)
            }
        } else {
            trim_tail(s.drop_first(), d - l, revert, wfp)
        }
    }
}

/// The new head: the old head moved by the direction scaled with `d`, with
/// the sign chosen by the sweep flag left behind by the tail trim.
pub open spec fn head_moved(h: Vector, dir: Vector, d: int, revert: bool) -> Vector {
    let mv = spec_scale(dir, d);
    if revert {
        spec_add(h, mv)
    } else {
        spec_sub(h, mv)
    }
}

/// One whole movement tick: trim the tail by `d`, then replace the head by
/// the head moved by `d`. Returns the new body and the new sweep flag.
pub open spec fn step_result(s: Seq<Vector>, d: int, revert: bool, wfp: int, dir: Vector) -> (
    Seq<Vector>,
    bool,
) {
    let t = trim_tail(s, d, revert, wfp);
    (t.0.drop_last().push(head_moved(t.0.last(), dir, d, t.1)), t.1)
}

/// Whether every vertex of `s` lies within `lim` on both axes.
pub open spec fn coords_bounded(s: Seq<Vector>, lim: int) -> bool {
    forall|i: int|
        0 <= i < s.len() ==> -lim <= #[trigger] s[i].x <= lim && -lim <= s[i].y <= lim
}

/// The snake body the tail trim leaves behind is never empty, and never
/// longer than what it was given.
pub proof fn lemma_trim_tail_len(s: Seq<Vector>, d: int, revert: bool, wfp: int)
    requires
        s.len() >= 1,
    ensures
        1 <= trim_tail(s, d, revert, wfp).0.len() <= s.len(),
    decreases s.len(),
{
    if s.len() <= 1 {
    } else {
        let l = seg_len(s[0], s[1]);
        if l >= d {
        } else {
            lemma_trim_tail_len(s.drop_first(), d - l, revert, wfp);
        }
    }
}

/// The game: play-field extents, speed, the snake body from tail tip to
/// head, the fixed direction, and the sweep flag of the boundary rule.
pub struct Game {
    pub width: i32,
    pub height: i32,
    pub speed: i64,
    pub snake: Vec<Vector>,
    pub direction: Vector,
    pub food: Vector,
    pub score: i32,
    pub revert: bool,
}

impl Game {
    /// The snake body as a sequence of vertices, tail tip first.
    pub open spec fn snake_seq(&self) -> Seq<Vector> {
        self.snake@
    }

    /// What [`Game::process`] needs of the state: a nonempty body whose
    /// vertices and direction fit the arithmetic limits.
    pub open spec fn wf_for_tick(&self) -> bool {
        &&& self.snake_seq().len() >= 1
        &&& coords_bounded(self.snake_seq(), COORD_LIMIT as int)
        &&& -MOVE_LIMIT <= self.direction.x <= MOVE_LIMIT
        &&& -MOVE_LIMIT <= self.direction.y <= MOVE_LIMIT
    }

    /// Builds a game whose head sits at the centre of the middle grid cell
    /// and whose tail tip lies `snake_length` units behind it, against the
    /// direction of travel. The sweep starts in its `revert == true` mode,
    /// the score at zero, and the food at the centre of the corner cell.
    pub fn new(width: i32, height: i32, speed: i64, snake_length: i32, direction: Vector) -> (g:
        Game)
        requires
            -MOVE_LIMIT <= direction.x <= MOVE_LIMIT,
            -MOVE_LIMIT <= direction.y <= MOVE_LIMIT,
            -0x80_0000_0000_0000 <= direction.x * snake_length <= 0x80_0000_0000_0000,
            -0x80_0000_0000_0000 <= direction.y * snake_length <= 0x80_0000_0000_0000,
        ensures
            g.width == width,
            g.height == height,
            g.speed == speed,
            g.direction == direction,
            g.score == 0,
            g.revert == true,
            g.food == (Vector { x: HALF_SCALE, y: HALF_SCALE }),
            g.snake_seq() =~= initial_snake(width as int, height as int, snake_length as int,
                direction),
            g.wf_for_tick(),
    {
        let head = Vector::new(center_exec(width), center_exec(height));
        let slen_fp = (snake_length as i64) * SCALE;
        proof {
            let dx = direction.x as int;
            let dy = direction.y as int;
            let sl = snake_length as int;
            assert(dx * (sl * SCALE) == (dx * sl) * SCALE && dy * (sl * SCALE) == (dy * sl)
                * SCALE) by (nonlinear_arith);
            lemma_mul_div_cancel(dx * sl, SCALE as int);
            lemma_mul_div_cancel(dy * sl, SCALE as int);
        }
        let offset = direction.scale_by(slen_fp);
        let tailtip = head.subtract(&offset);
        let mut snake: Vec<Vector> = Vec::new();
        snake.push(tailtip);
        snake.push(head);
        let food = Vector::new(HALF_SCALE, HALF_SCALE);
        Game {
            width,
            height,
            speed,
            snake,
            direction,
            food,
            score: 0,
            revert: true,
        }
    }

    /// A read-only snapshot of the snake's vertices.
    pub fn get_snake(&self) -> (r: Vec<Vector>)
        ensures
            r@ == self.snake_seq(),
    {
        let mut r: Vec<Vector> = Vec::new();
        let mut i: usize = 0;
        while i < self.snake.len()
            invariant
                i <= self.snake@.len(),
                r@ == self.snake@.subrange(0, i as int),
            decreases self.snake@.len() - i,
        {
            r.push(self.snake[i]);
            i = i + 1;
        }
        proof {
            assert(r@ =~= self.snake@);
        }
        r
    }

    /// The horizontal extent of the play field, against which the boundary
    /// rule sweeps.
    pub fn get_width(&self) -> (w: i32)
        ensures
            w == self.width,
    {
        self.width
    }

    /// Advances the game by `timespan`: the snake travels
    /// `speed * timespan` (in fixed point), and the sweep flag follows the
    /// boundary rule. Everything else is left untouched.
    pub fn process(&mut self, timespan: i64)
        requires
            old(self).wf_for_tick(),
            -MOVE_LIMIT <= scale_comp(old(self).speed as int, timespan as int) <= MOVE_LIMIT,
        ensures
            ({
                let d = scale_comp(old(self).speed as int, timespan as int);
                let st = step_result(old(self).snake_seq(), d, old(self).revert, field_fp(
                    old(self).width as int), old(self).direction);
                final(self).snake_seq() == st.0 && final(self).revert == st.1
            }),
            final(self).snake_seq().len() >= 1,
            final(self).width == old(self).width,
            final(self).height == old(self).height,
            final(self).speed == old(self).speed,
            final(self).direction == old(self).direction,
            final(self).food == old(self).food,
            final(self).score == old(self).score,
    {
        self.process_movement(timespan);
    }

    /// The movement tick itself; see [`trim_tail`] and [`head_moved`] for
    /// the two phases.
    fn process_movement(&mut self, timespan: i64)
        requires
            old(self).wf_for_tick(),
            -MOVE_LIMIT <= scale_comp(old(self).speed as int, timespan as int) <= MOVE_LIMIT,
        ensures
            ({
                let d = scale_comp(old(self).speed as int, timespan as int);
                let st = step_result(old(self).snake_seq(), d, old(self).revert, field_fp(
                    old(self).width as int), old(self).direction);
                final(self).snake_seq() == st.0 && final(self).revert == st.1
            }),
            final(self).snake_seq().len() >= 1,
            final(self).width == old(self).width,
            final(self).height == old(self).height,
            final(self).speed == old(self).speed,
            final(self).direction == old(self).direction,
            final(self).food == old(self).food,
            final(self).score == old(self).score,
    {
        let sp = self.speed as i128;
        let ts = timespan as i128;
        proof {
            assert(i128::MIN <= sp * ts <= i128::MAX) by (nonlinear_arith)
                requires
                    i64::MIN <= sp <= i64::MAX,
                    i64::MIN <= ts <= i64::MAX,
            ;
        }
        let distance = crate::num::div_floor(sp * ts, SCALE as i128) as i64;
        let wfp_exec = (self.width as i64) * SCALE;
        let ghost s0 = self.snake@;
        let ghost r0 = self.revert;
        let ghost d0 = distance as int;
        let ghost wfp = field_fp(self.width as int);
        let ghost pre = *self;

        let mut tail: Vec<Vector> = Vec::new();
        let mut snake_distance = distance;
        while self.snake.len() > 1
            invariant_except_break
                tail@.len() == 0,
                self.revert == r0,
                trim_tail(s0, d0, r0, wfp) == trim_tail(self.snake@, snake_distance as int, r0,
                    wfp),
            invariant
                self.width == pre.width,
                self.height == pre.height,
                self.speed == pre.speed,
                self.direction == pre.direction,
                self.food == pre.food,
                self.score == pre.score,
                -MOVE_LIMIT <= snake_distance <= MOVE_LIMIT,
                -MOVE_LIMIT <= d0 <= MOVE_LIMIT,
                coords_bounded(self.snake@, COORD_LIMIT as int),
                coords_bounded(tail@, COORD_LIMIT + MOVE_LIMIT),
                self.snake@.len() >= 1,
                wfp == wfp_exec,
                -MOVE_LIMIT <= pre.direction.x <= MOVE_LIMIT,
                -MOVE_LIMIT <= pre.direction.y <= MOVE_LIMIT,
            ensures
                tail@ + self.snake@ == trim_tail(s0, d0, r0, wfp).0,
                self.revert == trim_tail(s0, d0, r0, wfp).1,
            decreases self.snake@.len(),
        {
            let ghost prev = self.snake@;
            let point = self.snake.remove(0);
            let next = self.snake[0];
            proof {
                assert(prev.drop_first() =~= self.snake@);
                assert(point == prev[0] && next == prev[1]);
            }
            let segment = Segment::new(&point, &next);
            let length = segment.length();
            if length >= snake_distance {
                proof {
                    lemma_move_delta_bounded(point, next, snake_distance as int);
                }
                let vector = segment.get_vector().normalize().scale_by(snake_distance);
                proof {
                    assert(vector == move_delta(point, next, snake_distance as int));
                }
                if wfp_exec <= next.x || (!self.revert && next.x > 0) {
                    tail.push(point.subtract(&vector));
                    self.revert = false;
                } else {
                    tail.push(point.add(&vector));
                    self.revert = true;
                }
                proof {
                    assert(tail@ + self.snake@ =~= trim_tail(prev, snake_distance as int, r0,
                        wfp).0);
                }
                break ;
            } else {
                snake_distance = snake_distance - length;
            }
        }
        tail.append(&mut self.snake);
        self.snake = tail;
        proof {
            lemma_trim_tail_len(s0, d0, r0, wfp);
        }
        let old_head = match self.snake.pop() {
            Some(h) => h,
            None => unreached(),
        };
        proof {
            lemma_head_offset_bounded(self.direction, d0);
        }
        let offset = self.direction.scale_by(distance);
        let new_head = if !self.revert {
            old_head.subtract(&offset)
        } else {
            old_head.add(&offset)
        };
        self.snake.push(new_head);
        proof {
            let st = step_result(s0, d0, r0, wfp, pre.direction);
            assert(self.snake@ =~= st.0);
        }
    }
}

/// The spec-level snake a fresh game starts with: the centred head, and the
/// tail tip one body length behind it along the direction.
pub open spec fn initial_snake(width: int, height: int, snake_length: int, dir: Vector) -> Seq<
    Vector,
> {
    let head = Vector { x: center_coord(width) as i64, y: center_coord(height) as i64 };
    seq![spec_sub(head, spec_scale(dir, snake_length * SCALE)), head]
}

/// The centre coordinate of the middle cell of `w` cells, executably.
fn center_exec(w: i32) -> (c: i64)
    ensures
        c == center_coord(w as int),
        -0x40_0000_0000_0000 <= c <= 0x40_0000_0000_0000,
{
    let ww = w as i64;
    let rem = match ww.checked_rem_euclid(2) {
        Some(r) => r,
        None => unreached(),
    };
    let rh = if rem == 0 {
        match ww.checked_div_euclid(2) {
            Some(q) => q,
            None => unreached(),
        }
    } else if ww > 0 {
        match (ww + 1).checked_div_euclid(2) {
            Some(q) => q,
            None => unreached(),
        }
    } else {
        match (ww - 1).checked_div_euclid(2) {
            Some(q) => q,
            None => unreached(),
        }
    };
    rh * SCALE - HALF_SCALE
}

/// The trim displacement never exceeds the distance it stands for: its
/// normalized factor is at most one world unit on each axis.
pub proof fn lemma_move_delta_bounded(p: Vector, n: Vector, d: int)
    requires
        -MOVE_LIMIT <= d <= MOVE_LIMIT,
    ensures
        -MOVE_LIMIT <= move_delta(p, n, d).x <= MOVE_LIMIT,
        -MOVE_LIMIT <= move_delta(p, n, d).y <= MOVE_LIMIT,
        i64::MIN <= scale_comp(spec_normalize(spec_sub(n, p)).x as int, d) <= i64::MAX,
        i64::MIN <= scale_comp(spec_normalize(spec_sub(n, p)).y as int, d) <= i64::MAX,
{
    let u = spec_normalize(spec_sub(n, p));
    lemma_normalize_comp_bounded(spec_sub(n, p));
    lemma_unit_scale_bounded(u.x as int, d);
    lemma_unit_scale_bounded(u.y as int, d);
}

/// A normalized vector's coordinates lie within one world unit.
pub proof fn lemma_normalize_comp_bounded(v: Vector)
    ensures
        -SCALE <= spec_normalize(v).x <= SCALE,
        -SCALE <= spec_normalize(v).y <= SCALE,
{
    assert((v.x as int) * (v.x as int) + (v.y as int) * (v.y as int) >= 0) by (nonlinear_arith);
    lemma_sqrt_floor_correct(len_sq(v));
    crate::vector::lemma_component_within_length(v);
    crate::vector::lemma_norm_comp_bound(v.x as int, crate::vector::spec_len(v));
    crate::vector::lemma_norm_comp_bound(v.y as int, crate::vector::spec_len(v));
}

/// Scaling a coordinate within one world unit by a bounded distance keeps
/// the result within that bound.
pub proof fn lemma_unit_scale_bounded(c: int, d: int)
    requires
        -SCALE <= c <= SCALE,
        -MOVE_LIMIT <= d <= MOVE_LIMIT,
    ensures
        -MOVE_LIMIT <= scale_comp(c, d) <= MOVE_LIMIT,
{
    crate::num::lemma_scaled_quotient_bound(c, d, SCALE as int, MOVE_LIMIT as int);
}

/// The head offset `direction * distance` stays within the range that the
/// head move's additions need.
pub proof fn lemma_head_offset_bounded(dir: Vector, d: int)
    requires
        -MOVE_LIMIT <= dir.x <= MOVE_LIMIT,
        -MOVE_LIMIT <= dir.y <= MOVE_LIMIT,
        -MOVE_LIMIT <= d <= MOVE_LIMIT,
    ensures
        -0x6000_0000_0000_0000 <= scale_comp(dir.x as int, d) <= 0x6000_0000_0000_0000,
        -0x6000_0000_0000_0000 <= scale_comp(dir.y as int, d) <= 0x6000_0000_0000_0000,
{
    lemma_prod_quotient_bound(dir.x as int, d);
    lemma_prod_quotient_bound(dir.y as int, d);
}

/// `(a * b) / SCALE` for two factors within `MOVE_LIMIT` stays well inside
/// the machine range.
proof fn lemma_prod_quotient_bound(a: int, b: int)
    requires
        -MOVE_LIMIT <= a <= MOVE_LIMIT,
        -MOVE_LIMIT <= b <= MOVE_LIMIT,
    ensures
        -0x6000_0000_0000_0000 <= (a * b) / (SCALE as int) <= 0x6000_0000_0000_0000,
{
    assert(-(MOVE_LIMIT * MOVE_LIMIT) <= a * b <= MOVE_LIMIT * MOVE_LIMIT) by (nonlinear_arith)
        requires
            -MOVE_LIMIT <= a <= MOVE_LIMIT,
            -MOVE_LIMIT <= b <= MOVE_LIMIT,
    ;
    lemma_div_monotone(a * b, MOVE_LIMIT * MOVE_LIMIT, SCALE as int);
    lemma_div_monotone(-(MOVE_LIMIT * MOVE_LIMIT), a * b, SCALE as int);
}

/// A tick of distance zero moves nothing: as long as the vertex ahead of the
/// tail tip is strictly inside the horizontal extent of the field (on the
/// side the current sweep runs toward), the body and the sweep flag come out
/// unchanged.
pub proof fn lemma_zero_distance_step(s: Seq<Vector>, revert: bool, wfp: int, dir: Vector)
    requires
        s.len() >= 2,
        revert ==> s[1].x < wfp,
        !revert ==> s[1].x > 0,
    ensures
        step_result(s, 0, revert, wfp, dir).0 == s,
        step_result(s, 0, revert, wfp, dir).1 == revert,
{
    let p = s[0];
    let n = s[1];
    let l = seg_len(p, n);
    let dv = spec_sub(n, p);
    assert((dv.x as int) * (dv.x as int) + (dv.y as int) * (dv.y as int) >= 0) by (nonlinear_arith);
    lemma_sqrt_floor_correct(len_sq(dv));
    assert(l >= 0);
    lemma_zero_move_delta(p, n);
    let t = trim_tail(s, 0, revert, wfp);
    if sweep_back(revert, n.x as int, wfp) {
        assert(t.0 =~= s);
        assert(t.1 == false && !revert);
    } else {
        assert(t.0 =~= s);
        assert(t.1 == true && revert);
    }
    lemma_zero_head_move(t.0.last(), dir, t.1);
    assert(step_result(s, 0, revert, wfp, dir).0 =~= s);
}

/// Moving a tail point by a distance of zero leaves it in place.
proof fn lemma_zero_move_delta(p: Vector, n: Vector)
    ensures
        spec_sub(p, move_delta(p, n, 0)) == p,
        spec_add(p, move_delta(p, n, 0)) == p,
{
    let u = spec_normalize(spec_sub(n, p));
    assert((u.x as int) * 0 == 0 && (u.y as int) * 0 == 0) by (nonlinear_arith);
    assert(move_delta(p, n, 0) == (Vector { x: 0i64, y: 0i64 }));
}

/// Moving the head by a distance of zero leaves it in place.
proof fn lemma_zero_head_move(h: Vector, dir: Vector, revert: bool)
    ensures
        head_moved(h, dir, 0, revert) == h,
{
    assert((dir.x as int) * 0 == 0 && (dir.y as int) * 0 == 0) by (nonlinear_arith);
    assert(spec_scale(dir, 0) == (Vector { x: 0i64, y: 0i64 }));
}



} // verus!
