use crate::curve::{Curve, collect_seedpoints, seeds_of};
use crate::density::DensityGrid;
use crate::flow_field::{FlowField, unit_ok};
use crate::geometry::{Point, UNIT, MAX_COORD, floor_div, div_floor, point_ok, too_close};
use vstd::prelude::*;

verus! {

/// The Euler step taken from `p`: `step` ticks along the direction of `p`'s cell.
pub open spec fn displacement(field: FlowField, p: Point, step: int) -> Point {
    let d = field.direction(p.x as int, p.y as int);
    Point { x: floor_div(step * d.x, UNIT as int) as i64, y: floor_div(step * d.y, UNIT as int) as i64 }
}

/// The point one step from `p`, forward along the field or backward against it.
pub open spec fn next_point(field: FlowField, p: Point, step: int, forward: bool) -> Point {
    let s = displacement(field, p, step);
    if forward {
        Point { x: (p.x + s.x) as i64, y: (p.y + s.y) as i64 }
    } else {
        Point { x: (p.x - s.x) as i64, y: (p.y - s.y) as i64 }
    }
}

/// The samples of one half-curve from `p`, at most `budget` of them: stepping
/// stops at a point outside the field, or at one the density grid rejects.
pub open spec fn trace(
    field: FlowField,
    grid: DensityGrid,
    p: Point,
    step: int,
    forward: bool,
    budget: nat,
) -> Seq<Point>
    decreases budget,
{
    if budget == 0 || field.off_boundaries_spec(p.x as int, p.y as int) {
        Seq::empty()
    } else {
        let n = next_point(field, p, step, forward);
        if field.off_boundaries_spec(n.x as int, n.y as int) || !grid.valid_spec(n) {
            Seq::empty()
        } else {
            seq![n] + trace(field, grid, n, step, forward, (budget - 1) as nat)
        }
    }
}

/// Steps left for the backward half of a curve of at most `n_steps` samples.
pub open spec fn backward_budget(n_steps: int) -> nat {
    if n_steps / 2 >= 1 {
        (n_steps / 2 - 1) as nat
    } else {
        0
    }
}

/// The backward half traced from `start`.
pub open spec fn backward_half(field: FlowField, grid: DensityGrid, start: Point, n_steps: int, step: int) -> Seq<Point> {
    trace(field, grid, start, step, false, backward_budget(n_steps))
}

/// The forward half traced from `start`, with the steps the backward half left.
pub open spec fn forward_half(field: FlowField, grid: DensityGrid, start: Point, n_steps: int, step: int) -> Seq<Point> {
    let used = 1 + backward_half(field, grid, start, n_steps, step).len();
    trace(field, grid, start, step, true, if n_steps >= used { (n_steps - used) as nat } else { 0 })
}

/// The samples of the curve traced from `start`: the start, the backward half,
/// then the forward half.
pub open spec fn curve_samples(field: FlowField, grid: DensityGrid, start: Point, n_steps: int, step: int) -> Seq<Point> {
    seq![start] + backward_half(field, grid, start, n_steps, step) + forward_half(field, grid, start, n_steps, step)
}

/// The tags of the curve traced from `start`: 0 for the start and the backward
/// half, 1 for the forward half.
pub open spec fn curve_tags(field: FlowField, grid: DensityGrid, start: Point, n_steps: int, step: int) -> Seq<u8> {
    let nb = backward_half(field, grid, start, n_steps, step).len();
    let nf = forward_half(field, grid, start, n_steps, step).len();
    Seq::new((1 + nb + nf) as nat, |k: int| if k <= nb { 0u8 } else { 1u8 })
}

/// Every sample of a traced half lies inside the field and is accepted by the grid.
pub proof fn lemma_trace_inside(
    field: FlowField,
    grid: DensityGrid,
    p: Point,
    step: int,
    forward: bool,
    budget: nat,
)
    ensures
        trace(field, grid, p, step, forward, budget).len() <= budget,
        forall|k: int|
            0 <= k < trace(field, grid, p, step, forward, budget).len() ==> {
                let q = #[trigger] trace(field, grid, p, step, forward, budget)[k];
                !field.off_boundaries_spec(q.x as int, q.y as int) && grid.valid_spec(q)
            },
    decreases budget,
{
    if budget > 0 && !field.off_boundaries_spec(p.x as int, p.y as int) {
        let n = next_point(field, p, step, forward);
        lemma_trace_inside(field, grid, n, step, forward, (budget - 1) as nat);
        let t = trace(field, grid, p, step, forward, budget);
        let rest = trace(field, grid, n, step, forward, (budget - 1) as nat);
        if !(field.off_boundaries_spec(n.x as int, n.y as int) || !grid.valid_spec(n)) {
            assert forall|k: int| 0 <= k < t.len() implies {
                let q = #[trigger] t[k];
                !field.off_boundaries_spec(q.x as int, q.y as int) && grid.valid_spec(q)
            } by {
                if k > 0 {
                    assert(t[k] == rest[k - 1]);
                }
            }
        }
    }
}

/// A traced curve starts at its start; every later sample lies inside the field
/// and is accepted by the grid.
pub proof fn lemma_curve_inside(field: FlowField, grid: DensityGrid, start: Point, n_steps: int, step: int)
    requires
        field.wf(),
        grid.wf(),
    ensures
        curve_samples(field, grid, start, n_steps, step).len() >= 1,
        curve_samples(field, grid, start, n_steps, step)[0] == start,
        forall|l: int|
            1 <= l < curve_samples(field, grid, start, n_steps, step).len() ==> {
                let q = #[trigger] curve_samples(field, grid, start, n_steps, step)[l];
                &&& !field.off_boundaries_spec(q.x as int, q.y as int)
                &&& grid.valid_spec(q)
                &&& point_ok(q)
            },
{
    let back = backward_half(field, grid, start, n_steps, step);
    let fwd = forward_half(field, grid, start, n_steps, step);
    let used = 1 + back.len();
    lemma_trace_inside(field, grid, start, step, false, backward_budget(n_steps));
    lemma_trace_inside(field, grid, start, step, true, if n_steps >= used { (n_steps - used) as nat } else { 0 });
    let s = curve_samples(field, grid, start, n_steps, step);
    assert forall|l: int| 1 <= l < s.len() implies {
        let q = #[trigger] s[l];
        &&& !field.off_boundaries_spec(q.x as int, q.y as int)
        &&& grid.valid_spec(q)
        &&& point_ok(q)
    } by {
        if l <= back.len() {
            assert(s[l] == back[l - 1]);
        } else {
            assert(s[l] == fwd[l - 1 - back.len()]);
        }
        field.lemma_inside_extent(s[l].x as int, s[l].y as int);
    }
}

/// The point one step from `p`, which lies inside the field.
pub fn step_point(field: &FlowField, p: Point, step_length: i64, forward: bool) -> (n: Point)
    requires
        field.wf(),
        !field.off_boundaries_spec(p.x as int, p.y as int),
        0 <= step_length <= MAX_COORD,
    ensures
        n == next_point(*field, p, step_length as int, forward),
{
    let d = field.get_angle(p.x, p.y);
    proof {
        field.lemma_inside_extent(p.x as int, p.y as int);
        assert(-(step_length * UNIT) <= step_length * d.x <= step_length * UNIT) by (nonlinear_arith)
            requires unit_ok(d), 0 <= step_length;
        assert(-(step_length * UNIT) <= step_length * d.y <= step_length * UNIT) by (nonlinear_arith)
            requires unit_ok(d), 0 <= step_length;
        assert(step_length * UNIT <= MAX_COORD * UNIT) by (nonlinear_arith)
            requires 0 <= step_length <= MAX_COORD;
        crate::geometry::lemma_cell_bounds(step_length * d.x, UNIT as int);
        crate::geometry::lemma_cell_bounds(step_length * d.y, UNIT as int);
        assert(-step_length <= (step_length * d.x) / (UNIT as int) <= step_length) by (nonlinear_arith)
            requires
                -(step_length * UNIT) <= step_length * d.x <= step_length * UNIT,
                UNIT * ((step_length * d.x) / (UNIT as int)) <= step_length * d.x < UNIT * ((step_length * d.x) / (UNIT as int)) + UNIT,
                UNIT > 0;
        assert(-step_length <= (step_length * d.y) / (UNIT as int) <= step_length) by (nonlinear_arith)
            requires
                -(step_length * UNIT) <= step_length * d.y <= step_length * UNIT,
                UNIT * ((step_length * d.y) / (UNIT as int)) <= step_length * d.y < UNIT * ((step_length * d.y) / (UNIT as int)) + UNIT,
                UNIT > 0;
    }
    let sx = div_floor(step_length as i128 * d.x as i128, UNIT as i128) as i64;
    let sy = div_floor(step_length as i128 * d.y as i128, UNIT as i128) as i64;
    if forward {
        Point { x: p.x + sx, y: p.y + sy }
    } else {
        Point { x: p.x - sx, y: p.y - sy }
    }
}

/// Appends to `curve` the half traced from `start`, each sample tagged `tag`.
fn trace_half(
    curve: &mut Curve,
    field: &FlowField,
    grid: &DensityGrid,
    start: Point,
    step_length: i64,
    forward: bool,
    budget: u32,
    tag: u8,
)
    requires
        old(curve).wf(),
        field.wf(),
        grid.wf(),
        0 <= step_length <= MAX_COORD,
        old(curve).samples().len() + budget <= u32::MAX,
    ensures
        final(curve).wf(),
        final(curve).spec_id() == old(curve).spec_id(),
        final(curve).samples() == old(curve).samples() + trace(*field, *grid, start, step_length as int, forward, budget as nat),
        final(curve).tags() == old(curve).tags() + Seq::new(
            trace(*field, *grid, start, step_length as int, forward, budget as nat).len(),
            |k: int| tag,
        ),
{
    let ghost full = trace(*field, *grid, start, step_length as int, forward, budget as nat);
    let ghost base = curve.samples();
    let ghost base_tags = curve.tags();
    proof {
        lemma_trace_inside(*field, *grid, start, step_length as int, forward, budget as nat);
    }
    let mut p = start;
    let mut k: u32 = 0;
    while k < budget
        invariant
            curve.wf(),
            field.wf(),
            grid.wf(),
            0 <= step_length <= MAX_COORD,
            curve.spec_id() == old(curve).spec_id(),
            base == old(curve).samples(),
            base_tags == old(curve).tags(),
            base.len() + budget <= u32::MAX,
            0 <= k <= budget,
            full.len() <= budget,
            full == trace(*field, *grid, start, step_length as int, forward, budget as nat),
            k <= full.len(),
            curve.samples() == base + full.take(k as int),
            curve.tags() == base_tags + Seq::new(k as nat, |j: int| tag),
            trace(*field, *grid, p, step_length as int, forward, (budget - k) as nat) == full.skip(k as int),
        ensures
            curve.wf(),
            curve.spec_id() == old(curve).spec_id(),
            curve.samples() == base + full,
            curve.tags() == base_tags + Seq::new(full.len(), |j: int| tag),
        decreases budget - k,
    {
        if field.off_boundaries(p.x, p.y) {
            assert(full.skip(k as int).len() == 0);
            assert(full.take(k as int) =~= full);
            break;
        }
        let n = step_point(field, p, step_length, forward);
        if field.off_boundaries(n.x, n.y) || !grid.is_valid_next_step(n.x, n.y) {
            assert(full.skip(k as int).len() == 0);
            assert(full.take(k as int) =~= full);
            break;
        }
        proof {
            let rest = trace(*field, *grid, n, step_length as int, forward, (budget - k - 1) as nat);
            assert(trace(*field, *grid, p, step_length as int, forward, (budget - k) as nat) == seq![n] + rest);
            assert(full.skip(k as int).len() == 1 + rest.len());
            assert(full.skip(k as int)[0] == n);
            assert(full[k as int] == n);
            assert(rest =~= full.skip(k as int).skip(1));
            assert(rest =~= full.skip(k + 1));
        }
        curve.insert_step(n.x, n.y, tag);
        proof {
            assert(full.take(k + 1) =~= full.take(k as int).push(n));
            assert(Seq::new((k + 1) as nat, |j: int| tag) =~= Seq::new(k as nat, |j: int| tag).push(tag));
        }
        p = n;
        k = k + 1;
    }
    proof {
        if k == budget {
            assert(full.take(k as int) =~= full);
        }
    }
}

/// Traces one curve from `(x_start, y_start)`: the start itself (tag 0), then up
/// to `n_steps / 2 - 1` steps backward (tag 0), then forward steps (tag 1) until
/// the curve holds `n_steps` samples. Each half stops early at a point outside the
/// field or one the density grid rejects.
pub fn draw_curve(
    curve_id: u32,
    x_start: i64,
    y_start: i64,
    n_steps: u32,
    step_length: i64,
    flow_field: &FlowField,
    density_grid: &DensityGrid,
) -> (curve: Curve)
    requires
        flow_field.wf(),
        density_grid.wf(),
        0 <= step_length <= MAX_COORD,
    ensures
        curve.wf(),
        curve.spec_id() == curve_id,
        curve.samples() == curve_samples(*flow_field, *density_grid, Point { x: x_start, y: y_start }, n_steps as int, step_length as int),
        curve.tags() == curve_tags(*flow_field, *density_grid, Point { x: x_start, y: y_start }, n_steps as int, step_length as int),
{
    let start = Point { x: x_start, y: y_start };
    let ghost back = backward_half(*flow_field, *density_grid, start, n_steps as int, step_length as int);
    let ghost fwd = forward_half(*flow_field, *density_grid, start, n_steps as int, step_length as int);
    let mut curve = Curve::new(curve_id, n_steps);
    curve.insert_step(x_start, y_start, 0);
    let half: u32 = n_steps / 2;
    let back_budget: u32 = if half >= 1 { half - 1 } else { 0 };
    proof {
        lemma_trace_inside(*flow_field, *density_grid, start, step_length as int, false, back_budget as nat);
    }
    trace_half(&mut curve, flow_field, density_grid, start, step_length, false, back_budget, 0);
    let used = curve.steps_taken();
    let fwd_budget: u32 = if n_steps >= used { n_steps - used } else { 0 };
    trace_half(&mut curve, flow_field, density_grid, start, step_length, true, fwd_budget, 1);
    proof {
        assert(curve.samples() =~= curve_samples(*flow_field, *density_grid, start, n_steps as int, step_length as int));
        assert(curve.tags() =~= curve_tags(*flow_field, *density_grid, start, n_steps as int, step_length as int));
    }
    curve
}

} // verus!

verus! {

/// Every sample of a later curve lies more than `0.99 * d` from every sample of an earlier one.
pub open spec fn separated(curves: Seq<Curve>, d: int) -> bool {
    forall|i: int, j: int, k: int, l: int|
        0 <= i < j < curves.len() && 0 <= k < curves[i].samples().len() && 0 <= l < curves[j].samples().len()
            ==> !too_close(#[trigger] curves[j].samples()[l], #[trigger] curves[i].samples()[k], d)
}

/// The curves are numbered by position, and all samples are in range.
pub open spec fn well_numbered(curves: Seq<Curve>) -> bool {
    forall|i: int|
        0 <= i < curves.len() ==> {
            &&& (#[trigger] curves[i]).wf()
            &&& curves[i].spec_id() == i
            &&& forall|k: int| 0 <= k < curves[i].samples().len() ==> point_ok(#[trigger] curves[i].samples()[k])
        }
}

/// Each curve but the first has at least `min_steps` samples.
pub open spec fn long_enough(curves: Seq<Curve>, min_steps: int) -> bool {
    forall|i: int| 1 <= i < curves.len() ==> (#[trigger] curves[i]).samples().len() >= min_steps
}

/// Every sample but a curve's first lies inside the field; the first sample of
/// every curve but the first lies inside the density grid.
pub open spec fn inside(curves: Seq<Curve>, field: FlowField, grid: DensityGrid) -> bool {
    forall|i: int, k: int|
        0 <= i < curves.len() && 0 <= k < curves[i].samples().len() ==> {
            let q = #[trigger] curves[i].samples()[k];
            &&& k >= 1 ==> !field.off_boundaries_spec(q.x as int, q.y as int)
            &&& i >= 1 && k == 0 ==> !grid.off_boundaries_spec(q.x as int, q.y as int)
        }
}

/// Curve `i` is the curve traced from seed `m` of curve `j`, against a grid `g`
/// of the same frame that accepted that seed.
pub open spec fn traced_from(
    curves: Seq<Curve>,
    i: int,
    j: int,
    m: int,
    g: DensityGrid,
    field: FlowField,
    frame: DensityGrid,
    n_steps: int,
    step: int,
    d_sep: int,
) -> bool {
    let seeds = seeds_of(curves[j].samples(), d_sep);
    &&& g.wf()
    &&& g.same_frame(&frame)
    &&& 0 <= j < i
    &&& 0 <= m < seeds.len()
    &&& g.valid_spec(seeds[m])
    &&& curves[i].samples() == curve_samples(field, g, seeds[m], n_steps, step)
    &&& curves[i].tags() == curve_tags(field, g, seeds[m], n_steps, step)
}

/// Every curve but the first was traced from a seed of an earlier curve that the
/// grid of the time accepted.
pub open spec fn seeded(curves: Seq<Curve>, field: FlowField, frame: DensityGrid, n_steps: int, step: int, d_sep: int) -> bool {
    forall|i: int| 1 <= i < curves.len() ==> #[trigger] has_seed(curves, i, field, frame, n_steps, step, d_sep)
}

/// Curve `i` was traced from a seed of an earlier curve.
pub open spec fn has_seed(
    curves: Seq<Curve>,
    i: int,
    field: FlowField,
    frame: DensityGrid,
    n_steps: int,
    step: int,
    d_sep: int,
) -> bool {
    exists|j: int, m: int, g: DensityGrid| #[trigger] traced_from(curves, i, j, m, g, field, frame, n_steps, step, d_sep)
}

/// The grid holds every sample of every curve.
pub open spec fn all_held(curves: Seq<Curve>, grid: DensityGrid) -> bool {
    forall|i: int, k: int|
        0 <= i < curves.len() && 0 <= k < curves[i].samples().len() ==> grid.holds(#[trigger] curves[i].samples()[k])
}

} // verus!

verus! {

/// Places evenly spaced curves. The first is traced from the start point and
/// kept whatever its length. Then the curves are expanded in order: each
/// candidate seed of the current curve (left then right, sample by sample) that
/// the density grid accepts starts a new curve, which is kept, numbered and
/// committed to the grid only if it has at least `min_steps_allowed` samples.
/// Placement ends when every curve has been expanded, or when `n_curves` curves
/// are kept.
pub fn even_spaced_curves(
    x_start: i64,
    y_start: i64,
    n_curves: u32,
    n_steps: u32,
    min_steps_allowed: u32,
    step_length: i64,
    d_sep: i64,
    flow_field: &FlowField,
    density_grid: &mut DensityGrid,
) -> (curves: Vec<Curve>)
    requires
        flow_field.wf(),
        old(density_grid).wf(),
        point_ok(Point { x: x_start, y: y_start }),
        0 <= step_length <= MAX_COORD,
        0 < d_sep <= MAX_COORD,
    ensures
        final(density_grid).wf(),
        final(density_grid).same_frame(old(density_grid)),
        1 <= curves@.len(),
        curves@.len() <= n_curves || curves@.len() == 1,
        curves@[0].samples() == curve_samples(
            *flow_field,
            *old(density_grid),
            Point { x: x_start, y: y_start },
            n_steps as int,
            step_length as int,
        ),
        curves@[0].tags() == curve_tags(
            *flow_field,
            *old(density_grid),
            Point { x: x_start, y: y_start },
            n_steps as int,
            step_length as int,
        ),
        seeded(curves@, *flow_field, *old(density_grid), n_steps as int, step_length as int, d_sep as int),
        well_numbered(curves@),
        long_enough(curves@, min_steps_allowed as int),
        inside(curves@, *flow_field, *old(density_grid)),
        (final(density_grid).spec_dropped() == 0 && !old(density_grid).off_boundaries_spec(
            x_start as int,
            y_start as int,
        )) ==> separated(curves@, old(density_grid).spec_d_sep()),
{
    let ghost g0 = *density_grid;
    let ghost start = Point { x: x_start, y: y_start };
    let ghost d = g0.spec_d_sep();
    let mut curves: Vec<Curve> = Vec::new();
    let first = draw_curve(0, x_start, y_start, n_steps, step_length, flow_field, density_grid);
    proof {
        lemma_curve_inside(*flow_field, *density_grid, start, n_steps as int, step_length as int);
    }
    density_grid.insert_curve_coords(&first);
    curves.push(first);
    proof {
        assert(curves@[0] == first);
        if density_grid.spec_dropped() == 0 && !g0.off_boundaries_spec(x_start as int, y_start as int) {
            assert forall|i: int, k: int|
                0 <= i < curves@.len() && 0 <= k < curves@[i].samples().len() implies density_grid.holds(
                #[trigger] curves@[i].samples()[k]) by {
                assert(i == 0);
                if k >= 1 {
                    let q = first.samples()[k];
                    assert(g0.valid_spec(q));
                }
            }
        }
    }
    let mut curve_id: usize = 0;
    while curve_id < curves.len() && curves.len() < n_curves as usize
        invariant
            flow_field.wf(),
            density_grid.wf(),
            density_grid.same_frame(&g0),
            g0 == *old(density_grid),
            d == g0.spec_d_sep(),
            start == (Point { x: x_start, y: y_start }),
            0 <= step_length <= MAX_COORD,
            0 < d_sep <= MAX_COORD,
            1 <= curves@.len(),
            curves@.len() <= n_curves || curves@.len() == 1,
            curve_id <= curves@.len(),
            curves@[0].samples() == curve_samples(*flow_field, g0, start, n_steps as int, step_length as int),
            curves@[0].tags() == curve_tags(*flow_field, g0, start, n_steps as int, step_length as int),
            seeded(curves@, *flow_field, g0, n_steps as int, step_length as int, d_sep as int),
            well_numbered(curves@),
            long_enough(curves@, min_steps_allowed as int),
            inside(curves@, *flow_field, g0),
            g0.spec_dropped() <= density_grid.spec_dropped(),
            (density_grid.spec_dropped() == 0 && !g0.off_boundaries_spec(x_start as int, y_start as int))
                ==> separated(curves@, d) && all_held(curves@, *density_grid),
        decreases n_curves - curve_id,
    {
        let queue = collect_seedpoints(&curves[curve_id], d_sep);
        let mut j: usize = 0;
        while j < queue.len() && curves.len() < n_curves as usize
            invariant
                flow_field.wf(),
                density_grid.wf(),
                density_grid.same_frame(&g0),
                g0 == *old(density_grid),
                d == g0.spec_d_sep(),
                start == (Point { x: x_start, y: y_start }),
                0 <= step_length <= MAX_COORD,
                0 < d_sep <= MAX_COORD,
                1 <= curves@.len(),
                curves@.len() <= n_curves,
                curve_id < curves@.len(),
                curves@[0].samples() == curve_samples(*flow_field, g0, start, n_steps as int, step_length as int),
                curves@[0].tags() == curve_tags(*flow_field, g0, start, n_steps as int, step_length as int),
                seeded(curves@, *flow_field, g0, n_steps as int, step_length as int, d_sep as int),
                queue.seeds() == seeds_of(curves@[curve_id as int].samples(), d_sep as int),
                well_numbered(curves@),
                long_enough(curves@, min_steps_allowed as int),
                inside(curves@, *flow_field, g0),
                g0.spec_dropped() <= density_grid.spec_dropped(),
                (density_grid.spec_dropped() == 0 && !g0.off_boundaries_spec(x_start as int, y_start as int))
                    ==> separated(curves@, d) && all_held(curves@, *density_grid),
            decreases queue.seeds().len() - j,
        {
            let p = queue.point(j);
            if density_grid.is_valid_next_step(p.x, p.y) {
                let ghost g = *density_grid;
                let id = curves.len() as u32;
                let c = draw_curve(id, p.x, p.y, n_steps, step_length, flow_field, density_grid);
                proof {
                    lemma_curve_inside(*flow_field, g, p, n_steps as int, step_length as int);
                    g.lemma_inside(p.x as int, p.y as int);
                }
                if c.steps_taken() >= min_steps_allowed {
                    density_grid.insert_curve_coords(&c);
                    let ghost before = curves@;
                    curves.push(c);
                    proof {
                        let cs = c.samples();
                        assert(forall|l: int| 0 <= l < cs.len() ==> g.valid_spec(#[trigger] cs[l]));
                        assert(curves@ == before.push(c));
                        assert(seeded(curves@, *flow_field, g0, n_steps as int, step_length as int, d_sep as int)) by {
                            assert forall|i: int| 1 <= i < curves@.len() implies #[trigger] has_seed(
                                curves@, i, *flow_field, g0, n_steps as int, step_length as int, d_sep as int) by {
                                if i == before.len() {
                                    assert(curves@[curve_id as int] == before[curve_id as int]);
                                    assert(traced_from(curves@, i, curve_id as int, j as int, g, *flow_field, g0, n_steps as int, step_length as int, d_sep as int));
                                } else {
                                    assert(has_seed(before, i, *flow_field, g0, n_steps as int, step_length as int, d_sep as int));
                                    let (jj, m, gg) = choose|jj: int, m: int, gg: DensityGrid|
                                        #[trigger] traced_from(before, i, jj, m, gg, *flow_field, g0, n_steps as int, step_length as int, d_sep as int);
                                    assert(curves@[i] == before[i]);
                                    assert(curves@[jj] == before[jj]);
                                    assert(traced_from(curves@, i, jj, m, gg, *flow_field, g0, n_steps as int, step_length as int, d_sep as int));
                                }
                            }
                        }
                        assert(well_numbered(curves@)) by {
                            assert forall|i: int| 0 <= i < curves@.len() implies {
                                &&& (#[trigger] curves@[i]).wf()
                                &&& curves@[i].spec_id() == i
                                &&& forall|k: int|
                                    0 <= k < curves@[i].samples().len() ==> point_ok(#[trigger] curves@[i].samples()[k])
                            } by {
                                if i == before.len() {
                                    assert forall|k: int| 0 <= k < cs.len() implies point_ok(#[trigger] cs[k]) by {
                                        g.lemma_inside(cs[k].x as int, cs[k].y as int);
                                    }
                                }
                            }
                        }
                        assert(inside(curves@, *flow_field, g0)) by {
                            assert forall|i: int, k: int|
                                0 <= i < curves@.len() && 0 <= k < curves@[i].samples().len() implies {
                                let q = #[trigger] curves@[i].samples()[k];
                                &&& k >= 1 ==> !flow_field.off_boundaries_spec(q.x as int, q.y as int)
                                &&& i >= 1 && k == 0 ==> !g0.off_boundaries_spec(q.x as int, q.y as int)
                            } by {
                                if i < before.len() {
                                    assert(curves@[i] == before[i]);
                                }
                            }
                        }
                        if density_grid.spec_dropped() == 0 && !g0.off_boundaries_spec(x_start as int, y_start as int) {
                            assert(separated(before, d) && all_held(before, g));
                            assert forall|i: int, jj: int, k: int, l: int|
                                0 <= i < jj < curves@.len() && 0 <= k < curves@[i].samples().len() && 0 <= l
                                    < curves@[jj].samples().len() implies !too_close(
                                #[trigger] curves@[jj].samples()[l],
                                #[trigger] curves@[i].samples()[k],
                                d,
                            ) by {
                                if jj == before.len() {
                                    assert(curves@[i] == before[i]);
                                    assert(g.holds(before[i].samples()[k]));
                                    g.lemma_clear_of_held(cs[l], before[i].samples()[k]);
                                } else {
                                    assert(curves@[i] == before[i]);
                                    assert(curves@[jj] == before[jj]);
                                }
                            }
                            assert forall|i: int, k: int|
                                0 <= i < curves@.len() && 0 <= k < curves@[i].samples().len() implies density_grid.holds(
                                #[trigger] curves@[i].samples()[k]) by {
                                if i < before.len() {
                                    assert(curves@[i] == before[i]);
                                    assert(g.holds(before[i].samples()[k]));
                                } else {
                                    assert(g.valid_spec(cs[k]));
                                }
                            }
                        }
                    }
                }
            }
            j = j + 1;
        }
        curve_id = curve_id + 1;
    }
    curves
}

} // verus!

verus! {

/// Where the density grid covers no more than the field, and the start lies
/// inside the field, every sample of every placed curve lies inside the field.
pub proof fn lemma_samples_in_field(curves: Seq<Curve>, field: FlowField, grid: DensityGrid, start: Point)
    requires
        field.wf(),
        grid.wf(),
        grid.spec_width() * grid.spec_d_sep() <= field.spec_width() * UNIT,
        grid.spec_height() * grid.spec_d_sep() <= field.spec_height() * UNIT,
        !field.off_boundaries_spec(start.x as int, start.y as int),
        curves.len() >= 1,
        curves[0].samples().len() >= 1,
        curves[0].samples()[0] == start,
        inside(curves, field, grid),
    ensures
        forall|i: int, k: int|
            0 <= i < curves.len() && 0 <= k < curves[i].samples().len() ==> !field.off_boundaries_spec(
                (#[trigger] curves[i].samples()[k]).x as int,
                curves[i].samples()[k].y as int,
            ),
{
    assert forall|i: int, k: int|
        0 <= i < curves.len() && 0 <= k < curves[i].samples().len() implies !field.off_boundaries_spec(
        (#[trigger] curves[i].samples()[k]).x as int,
        curves[i].samples()[k].y as int,
    ) by {
        let q = curves[i].samples()[k];
        if i >= 1 && k == 0 {
            let d = grid.spec_d_sep();
            grid.lemma_inside(q.x as int, q.y as int);
            crate::geometry::lemma_cell_bounds(q.x as int, d);
            crate::geometry::lemma_cell_bounds(q.y as int, d);
            let (gw, gh) = (grid.spec_width(), grid.spec_height());
            let (qx, qy) = (q.x as int, q.y as int);
            assert(qx < gw * d) by (nonlinear_arith)
                requires d > 0, qx < d * (qx / d) + d, qx / d < gw;
            assert(qy < gh * d) by (nonlinear_arith)
                requires d > 0, qy < d * (qy / d) + d, qy / d < gh;
        }
    }
}

} // verus!
