//! The grid update pipeline: one tick is three ordered passes over the
//! write buffer — gravity/liquid movement with phase change, gas buoyancy,
//! and pairwise chemistry — followed by a buffer swap.
//!
//! Each pass scans columns in a random horizontal direction to avoid a
//! systematic left/right bias in contested swaps.  Passes mutate the grid
//! in place, so a cell may see neighbours that moved earlier in the same
//! pass; that wavefront visibility is deliberate and load-bearing.
//!
//! The grid is a flat row-major array of `width * height` cells; the cell
//! at column `x` and row `y` sits at index `y * width + x`.  Gravity pulls
//! toward row zero, gases rise toward the highest row.
//!
//! The tick is the unit of time: one call to [`World::update`] runs the
//! three passes once, and the phase-change rates are probabilities per
//! tick.  No wall-clock scaling is applied.

use vstd::prelude::*;
use crate::catalog::{get_element, is_instance_of, template_attrs};
use crate::elements::{same_but_color, spec_render, Element, ElementType};
use crate::reactions::{check_reaction, is_reaction_product, lemma_reaction_table_shape, spec_reaction};
use crate::rng::RandomSource;
use crate::swap_buffer::{copy_vec, SwapBuffer};

verus! {

/// Probability of evaporating per qualifying neighbour, in millionths per
/// tick.
pub const EVAP_RATE_PPM: u32 = 100;

/// Probability of condensing per qualifying neighbour, in millionths per
/// tick.
pub const CONDENS_RATE_PPM: u32 = 100;

/// One whole unit of probability: rolls are uniform below this.
pub const ROLL_ONE: u32 = 1_000_000;

/// Every cell of the grid is well-formed.
pub open spec fn grid_wf(s: Seq<Element>) -> bool {
    forall|i: int| 0 <= i < s.len() ==> #[trigger] s[i].wf()
}

/// An immovable element takes part in neither the gravity pass nor the
/// buoyancy pass.
pub open spec fn element_anchored(e: Element) -> bool {
    e.attributes.immovable ==> (!e.attributes.can_fall && !e.attributes.gas)
}

/// Every immovable cell of the grid is anchored, so the movement passes
/// can never displace one.
pub open spec fn grid_anchored(s: Seq<Element>) -> bool {
    forall|i: int| 0 <= i < s.len() ==> #[trigger] element_anchored(s[i])
}

/// Row-major index arithmetic: a coordinate pair below the grid bounds
/// gives an in-range index that decomposes back into the pair.
proof fn lemma_grid_index(x: int, y: int, w: int, h: int)
    requires
        0 <= x < w,
        0 <= y < h,
    ensures
        0 <= y * w + x < w * h,
        (y * w + x) % w == x,
        (y * w + x) / w == y,
{
    assert(y * w + x < w * h) by (nonlinear_arith)
        requires
            0 <= x < w && 0 <= y < h,
    ;
    assert(y * w + x >= 0) by (nonlinear_arith)
        requires
            0 <= x && 0 <= y && w > 0,
    ;
    vstd::arithmetic::div_mod::lemma_fundamental_div_mod_converse(y * w + x, w, y, x);
}

/// Swapping two cells of a sequence preserves its multiset of elements.
proof fn lemma_swap_multiset<T>(s: Seq<T>, i: int, j: int)
    requires
        0 <= i < s.len(),
        0 <= j < s.len(),
    ensures
        s.update(i, s[j]).update(j, s[i]).to_multiset() == s.to_multiset(),
{
    broadcast use vstd::multiset::group_multiset_axioms;

    if i == j {
        assert(s.update(i, s[j]).update(j, s[i]) =~= s);
    } else {
        let s1 = s.update(i, s[j]);
        let s2 = s1.update(j, s[i]);
        vstd::seq_lib::to_multiset_update(s, i, s[j]);
        vstd::seq_lib::to_multiset_update(s1, j, s[i]);
        s.to_multiset_ensures();
        assert(s.contains(s[i]));
        assert(s.contains(s[j]));
        assert(s1[j] == s[j]);
        assert(s2.to_multiset() =~= s.to_multiset());
    }
}

/// Swaps two cells of the grid in place.
fn swap_cells_vec(ew: &mut Vec<Element>, i: usize, j: usize)
    requires
        i < old(ew)@.len(),
        j < old(ew)@.len(),
    ensures
        final (ew)@ == old(ew)@.update(i as int, old(ew)@[j as int]).update(
            j as int,
            old(ew)@[i as int],
        ),
        final (ew)@.to_multiset() == old(ew)@.to_multiset(),
        final (ew)@.len() == old(ew)@.len(),
{
    let a = ew[i];
    let b = ew[j];
    ew[i] = b;
    ew[j] = a;
    proof {
        lemma_swap_multiset(old(ew)@, i as int, j as int);
    }
}

/// Whether a falling cell may displace the cell at a candidate
/// destination: the cell directly below the mover must not be immovable,
/// nor the destination; a liquid never displaces a gas; two solids never
/// swap; and the destination must be strictly less dense than the mover.
pub open spec fn spec_fall_ok(cell: Element, below_immovable: bool, other: Element) -> bool {
    &&& !below_immovable
    &&& !other.attributes.immovable
    &&& !(cell.attributes.liquid && other.attributes.gas)
    &&& !(cell.attributes.solid && other.attributes.solid)
    &&& other.density < cell.density
}

/// The acceptance test of the gravity pass.
pub fn fall_ok(cell: &Element, below_immovable: bool, other: &Element) -> (r: bool)
    ensures
        r == spec_fall_ok(*cell, below_immovable, *other),
{
    let both_solid = cell.attributes.solid && other.attributes.solid;
    let liquid_and_gas = cell.attributes.liquid && other.attributes.gas;
    !below_immovable && !other.attributes.immovable && !liquid_and_gas && !both_solid
        && other.density < cell.density
}

/// A column whose only gravity-subject cell sits at row `y0`, directly
/// over a cell it may displace: the straight-down candidate is tried
/// first and accepted, so for every random draw the movement stage swaps
/// exactly those two cells.
pub open spec fn col_lone_faller(s: Seq<Element>, w: int, h: int, x: int, y0: int) -> bool {
    &&& s.len() == w * h
    &&& 0 <= x < w
    &&& 1 <= y0 < h
    &&& s[y0 * w + x].attributes.can_fall
    &&& (forall|i: int|
        0 <= i < w * h && i % w == x && i != y0 * w + x ==> !(#[trigger] s[i]).attributes.can_fall)
    &&& spec_fall_ok(s[y0 * w + x], s[(y0 - 1) * w + x].attributes.immovable, s[(y0 - 1) * w + x])
}

/// The grid after the cell at `(x, y0)` swaps with the cell below it.
pub open spec fn fall_swap(s: Seq<Element>, w: int, x: int, y0: int) -> Seq<Element> {
    s.update(y0 * w + x, s[(y0 - 1) * w + x]).update((y0 - 1) * w + x, s[y0 * w + x])
}

/// Whether a liquid that could not fall may slide sideways into a
/// neighbour: the neighbour must not be immovable, must not be a gas under
/// a liquid, and must be strictly less dense.
pub open spec fn spec_lateral_ok(cell: Element, other: Element) -> bool {
    &&& !(cell.attributes.liquid && other.attributes.gas)
    &&& !other.attributes.immovable
    &&& other.density < cell.density
}

/// The acceptance test of the liquid side-step.
pub fn lateral_ok(cell: &Element, other: &Element) -> (r: bool)
    ensures
        r == spec_lateral_ok(*cell, *other),
{
    let liquid_and_gas = cell.attributes.liquid && other.attributes.gas;
    !liquid_and_gas && !other.attributes.immovable && other.density < cell.density
}

/// Whether a gas may rise into a candidate destination: the cell directly
/// above the mover must not be immovable when moving vertically, nor the
/// destination; the destination must be fluid-like (gas, liquid or air)
/// and strictly denser than the mover.
pub open spec fn spec_rise_ok(cell: Element, above_immovable: bool, other: Element) -> bool {
    &&& !above_immovable
    &&& !other.attributes.immovable
    &&& (other.attributes.gas || other.attributes.liquid || other.attributes.air)
    &&& other.density > cell.density
}

/// The acceptance test of the buoyancy pass.
pub fn rise_ok(cell: &Element, above_immovable: bool, other: &Element) -> (r: bool)
    ensures
        r == spec_rise_ok(*cell, above_immovable, *other),
{
    let fluid = other.attributes.gas || other.attributes.liquid || other.attributes.air;
    !above_immovable && !other.attributes.immovable && fluid && other.density > cell.density
}

/// Density ordering: whenever the gravity pass accepts a swap, the
/// destination is strictly less dense than the mover, and the pair is
/// never solid–solid.  The liquid side-step obeys the same ordering.
pub proof fn lemma_displacement_lowers_density(
    cell: Element,
    below_immovable: bool,
    other: Element,
)
    ensures
        spec_fall_ok(cell, below_immovable, other) ==> other.density < cell.density && !(
        cell.attributes.solid && other.attributes.solid),
        spec_lateral_ok(cell, other) ==> other.density < cell.density,
{
}

/// Buoyancy ordering: whenever the buoyancy pass accepts a swap, the
/// destination is strictly denser than the rising gas.
pub proof fn lemma_rise_raises_density(cell: Element, above_immovable: bool, other: Element)
    ensures
        spec_rise_ok(cell, above_immovable, other) ==> other.density > cell.density,
{
}

/// The probability roll of a phase change: fires when the uniform roll in
/// `[0, ROLL_ONE)` falls below `rate` millionths per qualifying neighbour.
pub open spec fn spec_phase_fires(roll: u32, rate: u32, count: u32) -> bool {
    roll < rate * count
}

/// The executable probability roll of a phase change.
pub fn phase_fires(roll: u32, rate: u32, count: u32) -> (b: bool)
    requires
        rate <= 10_000,
        count <= 100,
    ensures
        b == spec_phase_fires(roll, rate, count),
{
    proof {
        assert(rate * count <= 10_000 * 100) by (nonlinear_arith)
            requires
                rate <= 10_000u32 && count <= 100u32,
        ;
    }
    roll < rate * count
}

/// With no qualifying neighbour a phase change never fires, whatever the
/// roll.
pub proof fn lemma_phase_zero_neighbors(roll: u32, rate: u32)
    ensures
        !spec_phase_fires(roll, rate, 0),
{
}

/// The phase-change probability is monotonic in the neighbour count: a
/// roll that fires at a count also fires at every larger count.
pub proof fn lemma_phase_monotone(roll: u32, rate: u32, c1: u32, c2: u32)
    requires
        c1 <= c2,
    ensures
        spec_phase_fires(roll, rate, c1) ==> spec_phase_fires(roll, rate, c2),
{
    assert(rate * c1 <= rate * c2) by (nonlinear_arith)
        requires
            c1 <= c2 && rate >= 0,
    ;
}

/// What the phase-change stage may do to one cell: leave it alone,
/// re-randomise a sparkling cell's colour, evaporate it to its target, or
/// condense it — possibly after an evaporation, when the evaporation
/// target itself condenses.
pub open spec fn phase_step(a: Element, b: Element) -> bool {
    ||| b == a
    ||| (a.attributes.sparkle && same_but_color(a, b))
    ||| (match a.attributes.evaporate {
        Some(t) => is_instance_of(b, t) || (match template_attrs(t).condensate {
            Some(u) => is_instance_of(b, u),
            None => false,
        }),
        None => false,
    })
    ||| (match a.attributes.condensate {
        Some(t) => is_instance_of(b, t),
        None => false,
    })
}

/// Whether two flat indices name 4-adjacent cells of a grid `w` wide.
pub open spec fn grid_adjacent(i: int, j: int, w: int) -> bool {
    ||| (i / w == j / w && (i % w - j % w) * (i % w - j % w) == 1)
    ||| (i % w == j % w && (i / w - j / w) * (i / w - j / w) == 1)
}

/// Horizontally neighbouring coordinates give 4-adjacent flat indices.
proof fn lemma_adjacent_row(x1: int, x2: int, y: int, w: int, h: int)
    requires
        0 <= x1 < w,
        0 <= x2 < w,
        0 <= y < h,
        x2 == x1 - 1 || x2 == x1 + 1,
    ensures
        grid_adjacent(y * w + x1, y * w + x2, w),
{
    lemma_grid_index(x1, y, w, h);
    lemma_grid_index(x2, y, w, h);
    assert((x1 - x2) * (x1 - x2) == 1) by (nonlinear_arith)
        requires
            x2 == x1 - 1 || x2 == x1 + 1,
    ;
}

/// Vertically neighbouring coordinates give 4-adjacent flat indices.
proof fn lemma_adjacent_col(x: int, y1: int, y2: int, w: int, h: int)
    requires
        0 <= x < w,
        0 <= y1 < h,
        0 <= y2 < h,
        y2 == y1 - 1 || y2 == y1 + 1,
    ensures
        grid_adjacent(y1 * w + x, y2 * w + x, w),
{
    lemma_grid_index(x, y1, w, h);
    lemma_grid_index(x, y2, w, h);
    assert((y1 - y2) * (y1 - y2) == 1) by (nonlinear_arith)
        requires
            y2 == y1 - 1 || y2 == y1 + 1,
    ;
}

/// A grid with no reactive 4-adjacent pair: chemistry has nothing to do.
pub open spec fn grid_inert(s: Seq<Element>, w: int) -> bool {
    forall|i: int, j: int|
        0 <= i < s.len() && 0 <= j < s.len() && grid_adjacent(i, j, w) ==> (#[trigger] spec_reaction(
            s[i].id,
            s[j].id,
        )) is None
}

/// No two cells of the grid, wherever they sit, carry a reactive pair
/// of kinds: however movement rearranges such a grid, chemistry has
/// nothing to do.
pub open spec fn grid_unreactive(s: Seq<Element>) -> bool {
    forall|i: int, j: int|
        0 <= i < s.len() && 0 <= j < s.len() ==> (#[trigger] spec_reaction(
            s[i].id,
            s[j].id,
        )) is None
}

/// A grid with the same multiset of cells as a pairwise-unreactive grid
/// is itself pairwise unreactive.
proof fn lemma_multiset_unreactive(s1: Seq<Element>, s2: Seq<Element>)
    requires
        grid_unreactive(s1),
        s2.to_multiset() == s1.to_multiset(),
    ensures
        grid_unreactive(s2),
{
    assert forall|i: int, j: int|
        0 <= i < s2.len() && 0 <= j < s2.len() implies (#[trigger] spec_reaction(
        s2[i].id,
        s2[j].id,
    )) is None by {
        s1.to_multiset_ensures();
        s2.to_multiset_ensures();
        assert(s2.contains(s2[i]));
        assert(s2.contains(s2[j]));
        assert(s1.to_multiset().count(s2[i]) > 0);
        assert(s1.to_multiset().count(s2[j]) > 0);
        assert(s1.contains(s2[i]));
        assert(s1.contains(s2[j]));
        let a = choose|a: int| 0 <= a < s1.len() && s1[a] == s2[i];
        let b = choose|b: int| 0 <= b < s1.len() && s1[b] == s2[j];
        assert(spec_reaction(s1[a].id, s1[b].id) is None);
    }
}

/// No cell of the grid can sparkle, evaporate or condense: the
/// phase-change stage leaves every cell exactly alone, so the gravity
/// pass only permutes cells.
pub open spec fn grid_phase_free(s: Seq<Element>) -> bool {
    forall|i: int|
        0 <= i < s.len() ==> {
            &&& !(#[trigger] s[i]).attributes.sparkle
            &&& s[i].attributes.evaporate is None
            &&& s[i].attributes.condensate is None
        }
}

/// A grid with the same multiset of cells as a phase-free grid is itself
/// phase-free: the property speaks of cell values, not positions.
proof fn lemma_multiset_phase_free(s1: Seq<Element>, s2: Seq<Element>)
    requires
        grid_phase_free(s1),
        s2.to_multiset() == s1.to_multiset(),
    ensures
        grid_phase_free(s2),
{
    assert forall|i: int|
        0 <= i < s2.len() implies {
            &&& !(#[trigger] s2[i]).attributes.sparkle
            &&& s2[i].attributes.evaporate is None
            &&& s2[i].attributes.condensate is None
        } by {
        s1.to_multiset_ensures();
        s2.to_multiset_ensures();
        assert(s2.contains(s2[i]));
        assert(s1.to_multiset().count(s2[i]) > 0);
        assert(s1.contains(s2[i]));
        let j = choose|j: int| 0 <= j < s1.len() && s1[j] == s2[i];
        assert(!s1[j].attributes.sparkle);
    }
}

/// A grid in which no cell is subject to gravity, sparkling, evaporation
/// or condensation: the gravity pass has nothing to do.
pub open spec fn grid_still(s: Seq<Element>) -> bool {
    forall|i: int|
        0 <= i < s.len() ==> {
            &&& !(#[trigger] s[i]).attributes.can_fall
            &&& !s[i].attributes.sparkle
            &&& s[i].attributes.evaporate is None
            &&& s[i].attributes.condensate is None
        }
}

/// What the chemistry pass may do to one cell: leave it alone, replace it
/// by a fresh instance of a reaction product, or turn it to air because a
/// neighbour consumed it.  Chemistry never moves a cell.
pub open spec fn chem_cell_rel(a: Element, b: Element) -> bool {
    ||| b == a
    ||| is_instance_of(b, ElementType::Air)
    ||| (is_reaction_product(b.id) && is_instance_of(b, b.id))
}

/// The movement stage of the gravity pass for one column: scanning rows
/// from the bottom up, each cell with `CanFall` tries to displace the cell
/// below it, then (when falling) one of its lower diagonals in a random
/// order; a liquid that could not fall tries one sideways step.  A mover
/// that just displaced a cell lets the displaced cell retry the same slot
/// once (the repeat-once rule).  The stage only ever swaps cells, so the
/// grid's contents are preserved as a multiset, and on an anchored grid no
/// immovable cell is touched.
fn move_column(rng: &mut RandomSource, ew: &mut Vec<Element>, x: usize, w: usize, h: usize)
    requires
        old(ew)@.len() == w * h,
        x < w,
        1 <= h,
        grid_wf(old(ew)@),
    ensures
        final (ew)@.len() == w * h,
        grid_wf(final (ew)@),
        final (ew)@.to_multiset() == old(ew)@.to_multiset(),
        grid_anchored(old(ew)@) ==> grid_anchored(final (ew)@),
        grid_anchored(old(ew)@) ==> forall|i: int|
            0 <= i < w * h && old(ew)@[i].attributes.immovable ==> final (ew)@[i] == old(ew)@[i],
        (forall|i: int|
            0 <= i < w * h && i % (w as int) == x ==> !(#[trigger] old(
                ew,
            )@[i]).attributes.can_fall) ==> final (ew)@ == old(ew)@,
        forall|y0: int| #[trigger] col_lone_faller(old(ew)@, w as int, h as int, x as int, y0)
            ==> final (ew)@ == fall_swap(old(ew)@, w as int, x as int, y0),
{
    let ghost g0 = ew@;
    let mut y: usize = 0;
    let mut repeat_once: bool = false;
    while y < h
        invariant
            ew@.len() == w * h,
            x < w,
            1 <= h,
            y <= h,
            g0.len() == w * h,
            grid_wf(ew@),
            ew@.to_multiset() == g0.to_multiset(),
            grid_anchored(g0) ==> grid_anchored(ew@),
            grid_anchored(g0) ==> forall|i: int|
                0 <= i < w * h && g0[i].attributes.immovable ==> ew@[i] == g0[i],
            (forall|i: int|
                0 <= i < w * h && i % (w as int) == x ==> !(#[trigger] g0[i]).attributes.can_fall)
                ==> ew@ == g0,
            forall|y0: int| #[trigger] col_lone_faller(g0, w as int, h as int, x as int, y0)
                ==> {
                    &&& (y < y0 ==> ew@ == g0 && !repeat_once)
                    &&& (y == y0 ==> ((ew@ == g0 && !repeat_once) || (ew@ == fall_swap(
                        g0,
                        w as int,
                        x as int,
                        y0,
                    ) && repeat_once)))
                    &&& (y > y0 ==> ew@ == fall_swap(g0, w as int, x as int, y0))
                },
        decreases h - y, (if repeat_once {
            0int
        } else {
            1int
        }),
    {
        let _len_bound: usize = ew.len();
        proof {
            lemma_grid_index(x as int, y as int, w as int, h as int);
        }
        let idx = y * w + x;
        let ghost y_top = y as int;
        let ghost r_top = repeat_once;
        let ghost gtop = ew@;
        let cell = ew[idx];
        let mut advance: bool = true;

        if cell.attributes.can_fall {
            let order_left = if cell.falling {
                rng.next_bool()
            } else {
                false
            };
            let mut dest: usize = 0;
            let mut found: bool = false;
            if y >= 1 {
                proof {
                    lemma_grid_index(x as int, (y - 1) as int, w as int, h as int);
                }
                let below_idx = (y - 1) * w + x;
                let below_imm = ew[below_idx].attributes.immovable;
                if fall_ok(&cell, below_imm, &ew[below_idx]) {
                    dest = below_idx;
                    found = true;
                } else if cell.falling {
                    if order_left {
                        if x >= 1 {
                            proof {
                                lemma_grid_index((x - 1) as int, (y - 1) as int, w as int, h as int);
                            }
                            let d = (y - 1) * w + (x - 1);
                            if fall_ok(&cell, below_imm, &ew[d]) {
                                dest = d;
                                found = true;
                            }
                        }
                        if !found && x + 1 < w {
                            proof {
                                lemma_grid_index((x + 1) as int, (y - 1) as int, w as int, h as int);
                            }
                            let d = (y - 1) * w + (x + 1);
                            if fall_ok(&cell, below_imm, &ew[d]) {
                                dest = d;
                                found = true;
                            }
                        }
                    } else {
                        if x + 1 < w {
                            proof {
                                lemma_grid_index((x + 1) as int, (y - 1) as int, w as int, h as int);
                            }
                            let d = (y - 1) * w + (x + 1);
                            if fall_ok(&cell, below_imm, &ew[d]) {
                                dest = d;
                                found = true;
                            }
                        }
                        if !found && x >= 1 {
                            proof {
                                lemma_grid_index((x - 1) as int, (y - 1) as int, w as int, h as int);
                            }
                            let d = (y - 1) * w + (x - 1);
                            if fall_ok(&cell, below_imm, &ew[d]) {
                                dest = d;
                                found = true;
                            }
                        }
                    }
                }
            }
            if found {
                proof {
                    lemma_move_swap_invariants(g0, ew@, idx as int, dest as int, w as int, h as int);
                }
                swap_cells_vec(ew, idx, dest);
                if repeat_once {
                    repeat_once = false;
                    advance = true;
                } else {
                    repeat_once = true;
                    advance = false;
                }
            } else {
                if !cell.attributes.liquid {
                    // the repeat allowance deliberately carries over, as a
                    // rest-then-settle mover gives its slot up for this row
                    advance = true;
                } else {
                    let lat_left = rng.next_bool();
                    let mut ldest: usize = 0;
                    let mut lfound: bool = false;
                    if lat_left {
                        if x >= 1 {
                            proof {
                                lemma_grid_index((x - 1) as int, y as int, w as int, h as int);
                            }
                            let d = y * w + (x - 1);
                            if lateral_ok(&cell, &ew[d]) {
                                ldest = d;
                                lfound = true;
                            }
                        }
                        if !lfound && x + 1 < w {
                            proof {
                                lemma_grid_index((x + 1) as int, y as int, w as int, h as int);
                            }
                            let d = y * w + (x + 1);
                            if lateral_ok(&cell, &ew[d]) {
                                ldest = d;
                                lfound = true;
                            }
                        }
                    } else {
                        if x + 1 < w {
                            proof {
                                lemma_grid_index((x + 1) as int, y as int, w as int, h as int);
                            }
                            let d = y * w + (x + 1);
                            if lateral_ok(&cell, &ew[d]) {
                                ldest = d;
                                lfound = true;
                            }
                        }
                        if !lfound && x >= 1 {
                            proof {
                                lemma_grid_index((x - 1) as int, y as int, w as int, h as int);
                            }
                            let d = y * w + (x - 1);
                            if lateral_ok(&cell, &ew[d]) {
                                ldest = d;
                                lfound = true;
                            }
                        }
                    }
                    if lfound {
                        proof {
                            lemma_move_swap_invariants(
                                g0,
                                ew@,
                                idx as int,
                                ldest as int,
                                w as int,
                                h as int,
                            );
                        }
                        swap_cells_vec(ew, idx, ldest);
                        advance = true;
                    } else {
                        repeat_once = false;
                        advance = true;
                    }
                }
            }
        } else {
            repeat_once = false;
            advance = true;
        }
        if advance {
            y = y + 1;
        }
        proof {
            assert forall|y0: int| #[trigger] col_lone_faller(
                g0,
                w as int,
                h as int,
                x as int,
                y0,
            ) implies {
                &&& (y < y0 ==> ew@ == g0 && !repeat_once)
                &&& (y == y0 ==> ((ew@ == g0 && !repeat_once) || (ew@ == fall_swap(
                    g0,
                    w as int,
                    x as int,
                    y0,
                ) && repeat_once)))
                &&& (y > y0 ==> ew@ == fall_swap(g0, w as int, x as int, y0))
            } by {
                lemma_grid_index(x as int, y0, w as int, h as int);
                lemma_grid_index(x as int, y0 - 1, w as int, h as int);
                let idx0 = y0 * (w as int) + x;
                let bel = (y0 - 1) * (w as int) + x;
                let s_after = fall_swap(g0, w as int, x as int, y0);
                assert(bel != idx0);
                assert(s_after[idx0 as int] == g0[bel]);
                if y_top < y0 {
                    assert(idx as int != idx0);
                    assert(!g0[idx as int].attributes.can_fall);
                } else if y_top == y0 {
                    if gtop == g0 && !r_top {
                        assert(idx as int == idx0);
                        assert(gtop[bel] == g0[bel]);
                    } else {
                        assert(gtop == s_after && r_top);
                        assert(!g0[bel].attributes.can_fall);
                        assert(cell == g0[bel]);
                    }
                } else {
                    assert(idx as int != idx0 && idx as int != bel);
                    assert(gtop[idx as int] == g0[idx as int]);
                    assert(!g0[idx as int].attributes.can_fall);
                }
            }
        }
    }
}

/// One movement swap keeps every loop invariant: the swapped cells are a
/// mover subject to gravity or buoyancy and a non-immovable destination,
/// so on an anchored grid neither slot held an immovable cell, and a swap
/// permutes the grid.
proof fn lemma_move_swap_invariants(g0: Seq<Element>, pre: Seq<Element>, idx: int, dest: int, w: int, h: int)
    requires
        g0.len() == w * h,
        pre.len() == w * h,
        0 <= idx < w * h,
        0 <= dest < w * h,
        grid_wf(pre),
        pre.to_multiset() == g0.to_multiset(),
        grid_anchored(g0) ==> grid_anchored(pre),
        grid_anchored(g0) ==> forall|i: int|
            0 <= i < w * h && g0[i].attributes.immovable ==> pre[i] == g0[i],
        pre[idx].attributes.can_fall || pre[idx].attributes.gas,
        !pre[dest].attributes.immovable,
    ensures
        ({
            let post = pre.update(idx, pre[dest]).update(dest, pre[idx]);
            &&& grid_wf(post)
            &&& post.to_multiset() == g0.to_multiset()
            &&& (grid_anchored(g0) ==> grid_anchored(post))
            &&& (grid_anchored(g0) ==> forall|i: int|
                0 <= i < w * h && g0[i].attributes.immovable ==> post[i] == g0[i])
        }),
{
    let post = pre.update(idx, pre[dest]).update(dest, pre[idx]);
    lemma_swap_multiset(pre, idx, dest);
    assert forall|i: int| 0 <= i < post.len() implies #[trigger] post[i].wf() by {
        if i == dest {
            assert(post[i] == pre[idx]);
        } else if i == idx {
            assert(post[i] == pre[dest]);
        } else {
            assert(post[i] == pre[i]);
        }
    }
    if grid_anchored(g0) {
        assert forall|i: int| 0 <= i < post.len() implies #[trigger] element_anchored(post[i]) by {
            if i == dest {
                assert(element_anchored(pre[idx]));
            } else if i == idx {
                assert(element_anchored(pre[dest]));
            } else {
                assert(element_anchored(pre[i]));
            }
        }
        assert forall|i: int|
            0 <= i < w * h && g0[i].attributes.immovable implies post[i] == g0[i] by {
            if i == idx {
                assert(pre[idx] == g0[idx]);
                assert(element_anchored(pre[idx]));
                assert(false);
            } else if i == dest {
                assert(pre[dest] == g0[dest]);
                assert(false);
            } else {
                assert(post[i] == pre[i]);
            }
        }
    }
}

/// How many of a cell's four orthogonal neighbours are air-attributed.
pub open spec fn spec_air_neighbors(s: Seq<Element>, x: int, y: int, w: int, h: int) -> int {
    air_term(s, x - 1, y, w, h) + air_term(s, x + 1, y, w, h) + air_term(s, x, y - 1, w, h)
        + air_term(s, x, y + 1, w, h)
}

/// One neighbour's contribution: in-bounds air counts one.
pub open spec fn air_term(s: Seq<Element>, nx: int, ny: int, w: int, h: int) -> int {
    if 0 <= nx < w && 0 <= ny < h && s[ny * w + nx].attributes.air {
        1
    } else {
        0
    }
}

/// Counts the air-attributed cells among the four orthogonal neighbours.
fn count_air_neighbors(ew: &Vec<Element>, x: usize, y: usize, w: usize, h: usize) -> (n: u32)
    requires
        ew@.len() == w * h,
        x < w,
        y < h,
    ensures
        n == spec_air_neighbors(ew@, x as int, y as int, w as int, h as int),
        n <= 4,
{
    let _len_bound: usize = ew.len();
    let mut n: u32 = 0;
    if x >= 1 {
        proof {
            lemma_grid_index((x - 1) as int, y as int, w as int, h as int);
        }
        if ew[y * w + (x - 1)].attributes.air {
            n = n + 1;
        }
    }
    if x + 1 < w {
        proof {
            lemma_grid_index((x + 1) as int, y as int, w as int, h as int);
        }
        if ew[y * w + (x + 1)].attributes.air {
            n = n + 1;
        }
    }
    if y >= 1 {
        proof {
            lemma_grid_index(x as int, (y - 1) as int, w as int, h as int);
        }
        if ew[(y - 1) * w + x].attributes.air {
            n = n + 1;
        }
    }
    if y + 1 < h {
        proof {
            lemma_grid_index(x as int, (y + 1) as int, w as int, h as int);
        }
        if ew[(y + 1) * w + x].attributes.air {
            n = n + 1;
        }
    }
    n
}

/// One window cell's contribution to the condensation count: an in-bounds
/// cell of the same kind counts one, and an out-of-bounds position also
/// counts one, biasing condensation toward the grid edges.
pub open spec fn cheb_term(
    s: Seq<Element>,
    id: ElementType,
    x: int,
    y: int,
    w: int,
    h: int,
    ox: int,
    oy: int,
) -> int {
    if 0 <= x + ox < w && 0 <= y + oy < h {
        if s[(y + oy) * w + (x + ox)].id == id {
            1
        } else {
            0
        }
    } else {
        1
    }
}

/// The condensation count over the first `k` cells of the 7x7 Chebyshev
/// window (radius three), scanned row-major from offset (-3, -3).
pub open spec fn cheb_count_upto(
    s: Seq<Element>,
    id: ElementType,
    x: int,
    y: int,
    w: int,
    h: int,
    k: int,
) -> int
    decreases k,
{
    if k <= 0 {
        0
    } else {
        cheb_count_upto(s, id, x, y, w, h, k - 1) + cheb_term(
            s,
            id,
            x,
            y,
            w,
            h,
            (k - 1) % 7 - 3,
            (k - 1) / 7 - 3,
        )
    }
}

/// Counts cells of kind `id` in the Chebyshev-radius-three window around
/// `(x, y)`; out-of-bounds window positions count as matches.
fn count_same_kind(
    ew: &Vec<Element>,
    id: ElementType,
    x: usize,
    y: usize,
    w: usize,
    h: usize,
) -> (n: u32)
    requires
        ew@.len() == w * h,
        w * h <= 0x4000_0000,
        x < w,
        y < h,
    ensures
        n == cheb_count_upto(ew@, id, x as int, y as int, w as int, h as int, 49),
        n <= 49,
{
    let mut n: u32 = 0;
    let mut k: usize = 0;
    proof {
        assert(w <= w * h && h <= w * h) by (nonlinear_arith)
            requires
                w >= 1 && h >= 1,
        ;
    }
    while k < 49
        invariant
            ew@.len() == w * h,
            w * h <= 0x4000_0000,
            w <= 0x4000_0000,
            h <= 0x4000_0000,
            x < w,
            y < h,
            k <= 49,
            n <= k,
            n == cheb_count_upto(ew@, id, x as int, y as int, w as int, h as int, k as int),
        decreases 49 - k,
    {
        let ox = k % 7;
        let oy = k / 7;
        let mut hit: bool = false;
        if x + ox >= 3 && x + ox - 3 < w && y + oy >= 3 && y + oy - 3 < h {
            let nx = x + ox - 3;
            let ny = y + oy - 3;
            proof {
                lemma_grid_index(nx as int, ny as int, w as int, h as int);
            }
            if ew[ny * w + nx].id == id {
                hit = true;
            }
        } else {
            hit = true;
        }
        if hit {
            n = n + 1;
        }
        k = k + 1;
    }
    n
}

/// Catalog instances are anchored: no kind's template is both immovable
/// and subject to gravity or buoyancy.
proof fn lemma_instance_anchored(e: Element, t: ElementType)
    requires
        is_instance_of(e, t),
    ensures
        element_anchored(e),
{
}

/// Catalog instances are well-formed.
proof fn lemma_instance_wf(e: Element, t: ElementType)
    requires
        is_instance_of(e, t),
    ensures
        e.wf(),
{
    assert(crate::catalog::template_color(t).wf());
}

/// A phase step keeps a cell well-formed.
proof fn lemma_phase_step_wf(a: Element, b: Element)
    requires
        phase_step(a, b),
        a.wf(),
    ensures
        b.wf(),
{
    if b == a {
    } else if a.attributes.sparkle && same_but_color(a, b) {
    } else {
        match a.attributes.evaporate {
            Some(t) => {
                if is_instance_of(b, t) {
                    lemma_instance_wf(b, t);
                } else {
                    match template_attrs(t).condensate {
                        Some(u) => {
                            if is_instance_of(b, u) {
                                lemma_instance_wf(b, u);
                            }
                        },
                        None => {},
                    }
                }
            },
            None => {},
        }
        match a.attributes.condensate {
            Some(t) => {
                if is_instance_of(b, t) {
                    lemma_instance_wf(b, t);
                }
            },
            None => {},
        }
    }
}

/// A phase step keeps a cell anchored: colour draws keep the attribute
/// set, and every catalog instance is anchored.
proof fn lemma_phase_step_anchored(a: Element, b: Element)
    requires
        phase_step(a, b),
        element_anchored(a),
    ensures
        element_anchored(b),
{
    if b == a {
    } else if a.attributes.sparkle && same_but_color(a, b) {
    } else {
        match a.attributes.evaporate {
            Some(t) => {
                if is_instance_of(b, t) {
                    lemma_instance_anchored(b, t);
                } else {
                    match template_attrs(t).condensate {
                        Some(u) => {
                            if is_instance_of(b, u) {
                                lemma_instance_anchored(b, u);
                            }
                        },
                        None => {},
                    }
                }
            },
            None => {},
        }
        match a.attributes.condensate {
            Some(t) => {
                if is_instance_of(b, t) {
                    lemma_instance_anchored(b, t);
                }
            },
            None => {},
        }
    }
}

/// A settled cell — immovable and free of sparkle, evaporation and
/// condensation — is left exactly alone by a phase step.
pub open spec fn element_settled(e: Element) -> bool {
    &&& e.attributes.immovable
    &&& !e.attributes.sparkle
    &&& e.attributes.evaporate is None
    &&& e.attributes.condensate is None
}

/// An index whose remainder modulo the width is its column recomposes
/// from its row and column.
proof fn lemma_index_recompose(i: int, w: int)
    requires
        w > 0,
        0 <= i,
    ensures
        i == (i / w) * w + (i % w),
{
    vstd::arithmetic::div_mod::lemma_fundamental_div_mod(i, w);
    assert(w * (i / w) == (i / w) * w) by (nonlinear_arith);
}

/// The phase-change stage of the gravity pass for one column, scanning
/// rows bottom to top: a sparkling cell redraws its colour; a cell that
/// can evaporate does so with probability proportional to its air-adjacent
/// neighbours; a cell that can condense does so with probability
/// proportional to the same-kind cells in its radius-three window.  Cells
/// of other columns are untouched, and every cell of the column moves by
/// exactly one `phase_step`.
fn phase_column(rng: &mut RandomSource, ew: &mut Vec<Element>, x: usize, w: usize, h: usize)
    requires
        old(ew)@.len() == w * h,
        w * h <= 0x4000_0000,
        x < w,
        1 <= h,
        grid_wf(old(ew)@),
    ensures
        final (ew)@.len() == w * h,
        grid_wf(final (ew)@),
        forall|i: int| 0 <= i < w * h && i % (w as int) != x ==> final (ew)@[i] == old(ew)@[i],
        forall|i: int|
            0 <= i < w * h && i % (w as int) == x ==> phase_step(old(ew)@[i], final (ew)@[i]),
        grid_anchored(old(ew)@) ==> grid_anchored(final (ew)@),
{
    let ghost g0 = ew@;
    let mut y: usize = 0;
    while y < h
        invariant
            ew@.len() == w * h,
            w * h <= 0x4000_0000,
            x < w,
            1 <= h,
            y <= h,
            g0.len() == w * h,
            grid_wf(g0),
            grid_wf(ew@),
            forall|i: int| 0 <= i < w * h && i % (w as int) != x ==> ew@[i] == g0[i],
            forall|i: int|
                0 <= i < w * h && i % (w as int) == x && i / (w as int) < y ==> phase_step(
                    g0[i],
                    ew@[i],
                ),
            forall|i: int|
                0 <= i < w * h && i % (w as int) == x && i / (w as int) >= y ==> ew@[i] == g0[i],
            grid_anchored(g0) ==> grid_anchored(ew@),
        decreases h - y,
    {
        let _len_bound: usize = ew.len();
        proof {
            lemma_grid_index(x as int, y as int, w as int, h as int);
        }
        let idx = y * w + x;
        let ghost gpre = ew@;
        let ghost c0 = ew@[idx as int];

        if ew[idx].attributes.sparkle {
            let mut cell = ew[idx];
            cell.vary_color(rng);
            ew[idx] = cell;
        }

        let evap_t = ew[idx].attributes.evaporate;
        match evap_t {
            Some(t) => {
                let cnt = count_air_neighbors(ew, x, y, w, h);
                let roll = rng.next_below(ROLL_ONE);
                if phase_fires(roll, EVAP_RATE_PPM, cnt) {
                    let e = get_element(t, rng);
                    ew[idx] = e;
                }
            },
            None => {},
        }

        let cond_t = ew[idx].attributes.condensate;
        match cond_t {
            Some(t) => {
                let cid = ew[idx].id;
                let cnt = count_same_kind(ew, cid, x, y, w, h);
                let roll = rng.next_below(ROLL_ONE);
                if phase_fires(roll, CONDENS_RATE_PPM, cnt) {
                    let e = get_element(t, rng);
                    ew[idx] = e;
                }
            },
            None => {},
        }

        proof {
            let gnew = ew@;
            assert forall|i: int| 0 <= i < w * h && i != idx implies gnew[i] == gpre[i] by {}
            assert(phase_step(c0, gnew[idx as int]));
            lemma_phase_step_wf(c0, gnew[idx as int]);
            assert forall|i: int| 0 <= i < gnew.len() implies #[trigger] gnew[i].wf() by {
                if i != idx {
                    assert(gnew[i] == gpre[i]);
                }
            }
            assert forall|i: int|
                0 <= i < w * h && i % (w as int) != x implies gnew[i] == g0[i] by {
                lemma_index_recompose(i, w as int);
                assert(i != idx);
            }
            assert forall|i: int|
                0 <= i < w * h && i % (w as int) == x && i / (w as int) < y + 1 implies phase_step(
                    g0[i],
                    gnew[i],
                ) by {
                lemma_index_recompose(i, w as int);
                if i == idx {
                    assert(gpre[idx as int] == g0[idx as int]);
                } else {
                    assert(i / (w as int) != y);
                    assert(gnew[i] == gpre[i]);
                }
            }
            assert forall|i: int|
                0 <= i < w * h && i % (w as int) == x && i / (w as int) >= y + 1 implies gnew[i]
                == g0[i] by {
                lemma_index_recompose(i, w as int);
                assert(i != idx);
            }
            if grid_anchored(g0) {
                lemma_phase_step_anchored(c0, gnew[idx as int]);
                assert forall|i: int|
                    0 <= i < gnew.len() implies #[trigger] element_anchored(gnew[i]) by {
                    if i != idx {
                        assert(gnew[i] == gpre[i]);
                    }
                }
            }
        }
        y = y + 1;
    }
}

/// Which columns a direction-ordered scan has finished after `k` steps.
pub open spec fn col_done(dir: bool, k: int, w: int, c: int) -> bool {
    if dir {
        c < k
    } else {
        c >= w - k
    }
}

/// A grid whose only gravity-subject cell is a lone faller in column
/// `x0`, and which is free of sparkle and phase change: the gravity pass
/// then swaps exactly that cell with the one below it, for every random
/// draw and scan direction.
pub open spec fn lone_faller(s: Seq<Element>, w: int, h: int, x0: int, y0: int) -> bool {
    &&& col_lone_faller(s, w, h, x0, y0)
    &&& grid_phase_free(s)
    &&& (forall|i: int|
        0 <= i < w * h && i % w != x0 ==> !(#[trigger] s[i]).attributes.can_fall)
}

/// A grid whose only gas cell is a lone riser in column `x0`: the
/// buoyancy pass then swaps exactly that cell with the one above it, for
/// every random draw and scan direction.
pub open spec fn lone_riser(s: Seq<Element>, w: int, h: int, x0: int, y0: int) -> bool {
    &&& col_lone_riser(s, w, h, x0, y0)
    &&& (forall|i: int| 0 <= i < w * h && i % w != x0 ==> !(#[trigger] s[i]).attributes.gas)
}

/// On a phase-free grid the phase-change stage of one column is the
/// identity: every per-cell phase step collapses to equality.
proof fn lemma_phase_free_unchanged(pre: Seq<Element>, post: Seq<Element>, x: int, w: int, h: int)
    requires
        pre.len() == w * h,
        post.len() == w * h,
        1 <= w,
        grid_phase_free(pre),
        forall|i: int| 0 <= i < w * h && i % w != x ==> post[i] == pre[i],
        forall|i: int| 0 <= i < w * h && i % w == x ==> phase_step(pre[i], post[i]),
    ensures
        post == pre,
{
    assert forall|i: int| 0 <= i < w * h implies post[i] == pre[i] by {
        if i % w == x {
            assert(phase_step(pre[i], post[i]));
            assert(!pre[i].attributes.sparkle);
        }
    }
    assert(post =~= pre);
}

/// Pass 1 — movement and phase change: scans columns in a random
/// direction; each column runs the movement stage, then the phase-change
/// stage.  On an anchored grid, settled cells — immovable, no sparkle, no
/// phase transitions — come out exactly as they went in.
pub fn update_main(rng: &mut RandomSource, ew: &mut Vec<Element>, w: usize, h: usize)
    requires
        old(ew)@.len() == w * h,
        w * h <= 0x4000_0000,
        1 <= w,
        1 <= h,
        grid_wf(old(ew)@),
    ensures
        final (ew)@.len() == w * h,
        grid_wf(final (ew)@),
        grid_anchored(old(ew)@) ==> grid_anchored(final (ew)@),
        grid_anchored(old(ew)@) ==> forall|i: int|
            0 <= i < w * h && element_settled(old(ew)@[i]) ==> final (ew)@[i] == old(ew)@[i],
        grid_still(old(ew)@) ==> final (ew)@ == old(ew)@,
        grid_phase_free(old(ew)@) ==> final (ew)@.to_multiset() == old(ew)@.to_multiset(),
        forall|x0: int, y0: int| #[trigger] lone_faller(old(ew)@, w as int, h as int, x0, y0)
            ==> final (ew)@ == fall_swap(old(ew)@, w as int, x0, y0),
        (forall|i: int| 0 <= i < w * h ==> !(#[trigger] old(ew)@[i]).attributes.can_fall)
            ==> (forall|i: int|
            0 <= i < w * h ==> #[trigger] phase_step(old(ew)@[i], final (ew)@[i])),
{
    let ghost g0 = ew@;
    let dir = rng.next_bool();
    let mut k: usize = 0;
    while k < w
        invariant
            ew@.len() == w * h,
            w * h <= 0x4000_0000,
            1 <= w,
            1 <= h,
            k <= w,
            g0.len() == w * h,
            grid_wf(g0),
            grid_wf(ew@),
            grid_anchored(g0) ==> grid_anchored(ew@),
            grid_anchored(g0) ==> forall|i: int|
                0 <= i < w * h && element_settled(g0[i]) ==> ew@[i] == g0[i],
            grid_still(g0) ==> ew@ == g0,
            grid_phase_free(g0) ==> ew@.to_multiset() == g0.to_multiset(),
            forall|x0: int, y0: int| #[trigger] lone_faller(g0, w as int, h as int, x0, y0) ==> (
            if col_done(dir, k as int, w as int, x0) {
                ew@ == fall_swap(g0, w as int, x0, y0)
            } else {
                ew@ == g0
            }),
            (forall|i: int| 0 <= i < w * h ==> !(#[trigger] g0[i]).attributes.can_fall) ==> (
            forall|i: int| #![trigger g0[i]]
                0 <= i < w * h ==> (if col_done(dir, k as int, w as int, i % (w as int)) {
                    phase_step(g0[i], ew@[i])
                } else {
                    ew@[i] == g0[i]
                })),
        decreases w - k,
    {
        let x = if dir {
            k
        } else {
            w - 1 - k
        };
        let ghost gpre = ew@;
        move_column(rng, ew, x, w, h);
        let ghost gmid = ew@;
        phase_column(rng, ew, x, w, h);
        proof {
            if grid_anchored(g0) {
                assert forall|i: int|
                    0 <= i < w * h && element_settled(g0[i]) implies ew@[i] == g0[i] by {
                    assert(gpre[i] == g0[i]);
                    assert(gmid[i] == gpre[i]);
                    if i % (w as int) == x {
                        assert(phase_step(gmid[i], ew@[i]));
                    } else {
                        assert(ew@[i] == gmid[i]);
                    }
                }
            }
            if grid_still(g0) {
                assert(gmid == gpre);
                assert forall|i: int| 0 <= i < w * h implies ew@[i] == g0[i] by {
                    assert(g0[i] == gmid[i]);
                    if i % (w as int) == x {
                        assert(phase_step(gmid[i], ew@[i]));
                    } else {
                        assert(ew@[i] == gmid[i]);
                    }
                }
                assert(ew@ =~= g0);
            }
            if grid_phase_free(g0) {
                lemma_multiset_phase_free(g0, gmid);
                assert forall|i: int| 0 <= i < w * h implies ew@[i] == gmid[i] by {
                    if i % (w as int) == x {
                        assert(phase_step(gmid[i], ew@[i]));
                        assert(!gmid[i].attributes.sparkle);
                    }
                }
                assert(ew@ =~= gmid);
                assert(ew@.to_multiset() == g0.to_multiset());
            }
            assert forall|x0: int, y0: int| #[trigger] lone_faller(
                g0,
                w as int,
                h as int,
                x0,
                y0,
            ) implies (if col_done(dir, k as int + 1, w as int, x0) {
                ew@ == fall_swap(g0, w as int, x0, y0)
            } else {
                ew@ == g0
            }) by {
                lemma_grid_index(x0, y0, w as int, h as int);
                lemma_grid_index(x0, y0 - 1, w as int, h as int);
                let idx0 = y0 * (w as int) + x0;
                let bel = (y0 - 1) * (w as int) + x0;
                let s_after = fall_swap(g0, w as int, x0, y0);
                lemma_swap_multiset(g0, idx0, bel);
                lemma_multiset_phase_free(g0, s_after);
                assert(s_after[idx0] == g0[bel] && s_after[bel] == g0[idx0]);
                if x0 == x as int {
                    assert(!col_done(dir, k as int, w as int, x0));
                    assert(gpre == g0);
                    assert(col_lone_faller(gpre, w as int, h as int, x as int, y0));
                    assert(gmid == s_after);
                    lemma_phase_free_unchanged(gmid, ew@, x as int, w as int, h as int);
                    assert(col_done(dir, k as int + 1, w as int, x0));
                } else {
                    if col_done(dir, k as int, w as int, x0) {
                        assert(gpre == s_after);
                        assert forall|i: int|
                            0 <= i < w * h && i % (w as int) == x as int implies !(#[trigger] gpre[i]).attributes.can_fall by {
                            assert(i != idx0 && i != bel);
                            assert(gpre[i] == g0[i]);
                        }
                        assert(gmid == gpre);
                        lemma_phase_free_unchanged(gmid, ew@, x as int, w as int, h as int);
                        assert(col_done(dir, k as int + 1, w as int, x0));
                    } else {
                        assert(gpre == g0);
                        assert forall|i: int|
                            0 <= i < w * h && i % (w as int) == x as int implies !(#[trigger] gpre[i]).attributes.can_fall by {
                            assert(i % (w as int) != x0);
                        }
                        assert(gmid == gpre);
                        lemma_phase_free_unchanged(gmid, ew@, x as int, w as int, h as int);
                        assert(!col_done(dir, k as int + 1, w as int, x0));
                    }
                }
            }
            if forall|i: int| 0 <= i < w * h ==> !(#[trigger] g0[i]).attributes.can_fall {
                assert forall|i: int|
                    0 <= i < w * h && i % (w as int) == x as int implies !(#[trigger] gpre[i]).attributes.can_fall by {
                    assert(!col_done(dir, k as int, w as int, i % (w as int)));
                    assert(gpre[i] == g0[i]);
                }
                assert(gmid == gpre);
                assert forall|i: int| #![trigger g0[i]]
                    0 <= i < w * h implies (if col_done(dir, k as int + 1, w as int, i % (
                    w as int)) {
                        phase_step(g0[i], ew@[i])
                    } else {
                        ew@[i] == g0[i]
                    }) by {
                    if i % (w as int) == x as int {
                        assert(gmid[i] == g0[i]);
                        assert(phase_step(gmid[i], ew@[i]));
                        assert(col_done(dir, k as int + 1, w as int, i % (w as int)));
                    } else {
                        assert(ew@[i] == gmid[i]);
                    }
                }
            }
        }
        k = k + 1;
    }
}

/// The buoyancy stage for one column, scanning rows from the top down: a
/// gas cell tries to rise straight up, then up one of the two diagonals in
/// a random order, then sideways, into a fluid-like neighbour of strictly
/// greater density, with the same repeat-once rule as the gravity pass.
/// Pure swaps: the grid's contents are preserved as a multiset, and on an
/// anchored grid no immovable cell is touched.
#[verifier::rlimit(100)]
fn gas_column(rng: &mut RandomSource, ew: &mut Vec<Element>, x: usize, w: usize, h: usize)
    requires
        old(ew)@.len() == w * h,
        x < w,
        1 <= h,
        grid_wf(old(ew)@),
    ensures
        final (ew)@.len() == w * h,
        grid_wf(final (ew)@),
        final (ew)@.to_multiset() == old(ew)@.to_multiset(),
        grid_anchored(old(ew)@) ==> grid_anchored(final (ew)@),
        grid_anchored(old(ew)@) ==> forall|i: int|
            0 <= i < w * h && old(ew)@[i].attributes.immovable ==> final (ew)@[i] == old(ew)@[i],
        (forall|i: int|
            0 <= i < w * h && i % (w as int) == x ==> !(#[trigger] old(ew)@[i]).attributes.gas)
            ==> final (ew)@ == old(ew)@,
        forall|y0: int| #[trigger] col_lone_riser(old(ew)@, w as int, h as int, x as int, y0)
            ==> final (ew)@ == rise_swap(old(ew)@, w as int, x as int, y0),
{
    let ghost g0 = ew@;
    let mut yy: usize = 0;
    let mut repeat_once: bool = false;
    while yy < h
        invariant
            ew@.len() == w * h,
            x < w,
            1 <= h,
            yy <= h,
            g0.len() == w * h,
            grid_wf(ew@),
            ew@.to_multiset() == g0.to_multiset(),
            grid_anchored(g0) ==> grid_anchored(ew@),
            grid_anchored(g0) ==> forall|i: int|
                0 <= i < w * h && g0[i].attributes.immovable ==> ew@[i] == g0[i],
            (forall|i: int|
                0 <= i < w * h && i % (w as int) == x ==> !(#[trigger] g0[i]).attributes.gas)
                ==> ew@ == g0,
            forall|y0: int| #[trigger] col_lone_riser(g0, w as int, h as int, x as int, y0)
                ==> {
                    &&& (yy < h - 1 - y0 ==> ew@ == g0 && !repeat_once)
                    &&& (yy == h - 1 - y0 ==> ((ew@ == g0 && !repeat_once) || (ew@ == rise_swap(
                        g0,
                        w as int,
                        x as int,
                        y0,
                    ) && repeat_once)))
                    &&& (yy > h - 1 - y0 ==> ew@ == rise_swap(g0, w as int, x as int, y0))
                },
        decreases h - yy, (if repeat_once {
            0int
        } else {
            1int
        }),
    {
        let y = h - 1 - yy;
        let _len_bound: usize = ew.len();
        proof {
            lemma_grid_index(x as int, y as int, w as int, h as int);
        }
        let idx = y * w + x;
        let ghost y_top = y as int;
        let ghost r_top = repeat_once;
        let ghost gtop = ew@;
        let cell = ew[idx];
        let mut advance: bool = true;

        if cell.attributes.gas {
            let order_left = rng.next_bool();
            let lat_left = rng.next_bool();
            let mut dest: usize = 0;
            let mut found: bool = false;
            if y + 1 < h {
                proof {
                    lemma_grid_index(x as int, (y + 1) as int, w as int, h as int);
                }
                let above_idx = (y + 1) * w + x;
                let above_imm = ew[above_idx].attributes.immovable;
                if rise_ok(&cell, above_imm, &ew[above_idx]) {
                    dest = above_idx;
                    found = true;
                } else if order_left {
                    if x >= 1 {
                        proof {
                            lemma_grid_index((x - 1) as int, (y + 1) as int, w as int, h as int);
                        }
                        let d = (y + 1) * w + (x - 1);
                        if rise_ok(&cell, above_imm, &ew[d]) {
                            dest = d;
                            found = true;
                        }
                    }
                    if !found && x + 1 < w {
                        proof {
                            lemma_grid_index((x + 1) as int, (y + 1) as int, w as int, h as int);
                        }
                        let d = (y + 1) * w + (x + 1);
                        if rise_ok(&cell, above_imm, &ew[d]) {
                            dest = d;
                            found = true;
                        }
                    }
                } else {
                    if x + 1 < w {
                        proof {
                            lemma_grid_index((x + 1) as int, (y + 1) as int, w as int, h as int);
                        }
                        let d = (y + 1) * w + (x + 1);
                        if rise_ok(&cell, above_imm, &ew[d]) {
                            dest = d;
                            found = true;
                        }
                    }
                    if !found && x >= 1 {
                        proof {
                            lemma_grid_index((x - 1) as int, (y + 1) as int, w as int, h as int);
                        }
                        let d = (y + 1) * w + (x - 1);
                        if rise_ok(&cell, above_imm, &ew[d]) {
                            dest = d;
                            found = true;
                        }
                    }
                }
            }
            if !found {
                if lat_left {
                    if x >= 1 {
                        proof {
                            lemma_grid_index((x - 1) as int, y as int, w as int, h as int);
                        }
                        let d = y * w + (x - 1);
                        if rise_ok(&cell, false, &ew[d]) {
                            dest = d;
                            found = true;
                        }
                    }
                    if !found && x + 1 < w {
                        proof {
                            lemma_grid_index((x + 1) as int, y as int, w as int, h as int);
                        }
                        let d = y * w + (x + 1);
                        if rise_ok(&cell, false, &ew[d]) {
                            dest = d;
                            found = true;
                        }
                    }
                } else {
                    if x + 1 < w {
                        proof {
                            lemma_grid_index((x + 1) as int, y as int, w as int, h as int);
                        }
                        let d = y * w + (x + 1);
                        if rise_ok(&cell, false, &ew[d]) {
                            dest = d;
                            found = true;
                        }
                    }
                    if !found && x >= 1 {
                        proof {
                            lemma_grid_index((x - 1) as int, y as int, w as int, h as int);
                        }
                        let d = y * w + (x - 1);
                        if rise_ok(&cell, false, &ew[d]) {
                            dest = d;
                            found = true;
                        }
                    }
                }
            }
            if found {
                proof {
                    lemma_move_swap_invariants(g0, ew@, idx as int, dest as int, w as int, h as int);
                }
                swap_cells_vec(ew, idx, dest);
                if repeat_once {
                    repeat_once = false;
                    advance = true;
                } else {
                    repeat_once = true;
                    advance = false;
                }
            } else {
                repeat_once = false;
                advance = true;
            }
        } else {
            repeat_once = false;
            advance = true;
        }
        if advance {
            yy = yy + 1;
        }
        proof {
            assert forall|y0: int| #[trigger] col_lone_riser(
                g0,
                w as int,
                h as int,
                x as int,
                y0,
            ) implies {
                &&& (yy < h - 1 - y0 ==> ew@ == g0 && !repeat_once)
                &&& (yy == h - 1 - y0 ==> ((ew@ == g0 && !repeat_once) || (ew@ == rise_swap(
                    g0,
                    w as int,
                    x as int,
                    y0,
                ) && repeat_once)))
                &&& (yy > h - 1 - y0 ==> ew@ == rise_swap(g0, w as int, x as int, y0))
            } by {
                lemma_grid_index(x as int, y0, w as int, h as int);
                lemma_grid_index(x as int, y0 + 1, w as int, h as int);
                let idx0 = y0 * (w as int) + x;
                let abv = (y0 + 1) * (w as int) + x;
                let s_after = rise_swap(g0, w as int, x as int, y0);
                assert(abv != idx0);
                assert(s_after[idx0 as int] == g0[abv]);
                if y_top > y0 {
                    assert(idx as int != idx0);
                    assert(!g0[idx as int].attributes.gas);
                } else if y_top == y0 {
                    if gtop == g0 && !r_top {
                        assert(idx as int == idx0);
                        assert(gtop[abv] == g0[abv]);
                    } else {
                        assert(gtop == s_after && r_top);
                        assert(!g0[abv].attributes.gas);
                        assert(cell == g0[abv]);
                    }
                } else {
                    assert(idx as int != idx0 && idx as int != abv);
                    assert(gtop[idx as int] == g0[idx as int]);
                    assert(!g0[idx as int].attributes.gas);
                }
            }
        }
    }
}

/// A column whose only gas cell sits at row `y0`, directly under a cell
/// it may rise into: the straight-up candidate is tried first and
/// accepted, so for every random draw the buoyancy stage swaps exactly
/// those two cells.
pub open spec fn col_lone_riser(s: Seq<Element>, w: int, h: int, x: int, y0: int) -> bool {
    &&& s.len() == w * h
    &&& 0 <= x < w
    &&& 0 <= y0
    &&& y0 + 1 < h
    &&& s[y0 * w + x].attributes.gas
    &&& (forall|i: int|
        0 <= i < w * h && i % w == x && i != y0 * w + x ==> !(#[trigger] s[i]).attributes.gas)
    &&& spec_rise_ok(s[y0 * w + x], s[(y0 + 1) * w + x].attributes.immovable, s[(y0 + 1) * w + x])
}

/// The grid after the cell at `(x, y0)` swaps with the cell above it.
pub open spec fn rise_swap(s: Seq<Element>, w: int, x: int, y0: int) -> Seq<Element> {
    s.update(y0 * w + x, s[(y0 + 1) * w + x]).update((y0 + 1) * w + x, s[y0 * w + x])
}

/// Pass 2 — gas buoyancy: scans columns in a random direction and runs
/// the buoyancy stage on each.  The pass only swaps cells, so the grid's
/// contents are preserved as a multiset, and on an anchored grid every
/// immovable cell comes out exactly where and as it went in.
pub fn update_gases(rng: &mut RandomSource, ew: &mut Vec<Element>, w: usize, h: usize)
    requires
        old(ew)@.len() == w * h,
        1 <= w,
        1 <= h,
        grid_wf(old(ew)@),
    ensures
        final (ew)@.len() == w * h,
        grid_wf(final (ew)@),
        final (ew)@.to_multiset() == old(ew)@.to_multiset(),
        grid_anchored(old(ew)@) ==> grid_anchored(final (ew)@),
        grid_anchored(old(ew)@) ==> forall|i: int|
            0 <= i < w * h && old(ew)@[i].attributes.immovable ==> final (ew)@[i] == old(ew)@[i],
        (forall|i: int| 0 <= i < w * h ==> !(#[trigger] old(ew)@[i]).attributes.gas)
            ==> final (ew)@ == old(ew)@,
        forall|x0: int, y0: int| #[trigger] lone_riser(old(ew)@, w as int, h as int, x0, y0)
            ==> final (ew)@ == rise_swap(old(ew)@, w as int, x0, y0),
{
    let ghost g0 = ew@;
    let dir = rng.next_bool();
    let mut k: usize = 0;
    while k < w
        invariant
            ew@.len() == w * h,
            1 <= w,
            1 <= h,
            k <= w,
            g0.len() == w * h,
            grid_wf(ew@),
            ew@.to_multiset() == g0.to_multiset(),
            grid_anchored(g0) ==> grid_anchored(ew@),
            grid_anchored(g0) ==> forall|i: int|
                0 <= i < w * h && g0[i].attributes.immovable ==> ew@[i] == g0[i],
            (forall|i: int| 0 <= i < w * h ==> !(#[trigger] g0[i]).attributes.gas) ==> ew@ == g0,
            forall|x0: int, y0: int| #[trigger] lone_riser(g0, w as int, h as int, x0, y0) ==> (
            if col_done(dir, k as int, w as int, x0) {
                ew@ == rise_swap(g0, w as int, x0, y0)
            } else {
                ew@ == g0
            }),
        decreases w - k,
    {
        let x = if dir {
            k
        } else {
            w - 1 - k
        };
        let ghost gpre = ew@;
        gas_column(rng, ew, x, w, h);
        proof {
            assert forall|x0: int, y0: int| #[trigger] lone_riser(
                g0,
                w as int,
                h as int,
                x0,
                y0,
            ) implies (if col_done(dir, k as int + 1, w as int, x0) {
                ew@ == rise_swap(g0, w as int, x0, y0)
            } else {
                ew@ == g0
            }) by {
                lemma_grid_index(x0, y0, w as int, h as int);
                lemma_grid_index(x0, y0 + 1, w as int, h as int);
                let idx0 = y0 * (w as int) + x0;
                let abv = (y0 + 1) * (w as int) + x0;
                let s_after = rise_swap(g0, w as int, x0, y0);
                assert(s_after[idx0] == g0[abv] && s_after[abv] == g0[idx0]);
                if x0 == x as int {
                    assert(!col_done(dir, k as int, w as int, x0));
                    assert(gpre == g0);
                    assert(col_lone_riser(gpre, w as int, h as int, x as int, y0));
                    assert(ew@ == s_after);
                    assert(col_done(dir, k as int + 1, w as int, x0));
                } else {
                    if col_done(dir, k as int, w as int, x0) {
                        assert(gpre == s_after);
                        assert forall|i: int|
                            0 <= i < w * h && i % (w as int) == x as int implies !(#[trigger] gpre[i]).attributes.gas by {
                            assert(i != idx0 && i != abv);
                            assert(gpre[i] == g0[i]);
                        }
                        assert(ew@ == gpre);
                        assert(col_done(dir, k as int + 1, w as int, x0));
                    } else {
                        assert(gpre == g0);
                        assert forall|i: int|
                            0 <= i < w * h && i % (w as int) == x as int implies !(#[trigger] gpre[i]).attributes.gas by {
                            assert(i % (w as int) != x0);
                        }
                        assert(ew@ == gpre);
                        assert(!col_done(dir, k as int + 1, w as int, x0));
                    }
                }
            }
        }
        k = k + 1;
    }
}

/// Attempts the reaction between the cell at `idx` and its neighbour at
/// `nidx`: when the reaction table has an entry for their kinds, the cell
/// becomes a fresh instance of the product and the neighbour becomes air.
fn chem_try(rng: &mut RandomSource, ew: &mut Vec<Element>, idx: usize, nidx: usize) -> (reacted:
    bool)
    requires
        idx < old(ew)@.len(),
        nidx < old(ew)@.len(),
        idx != nidx,
        grid_wf(old(ew)@),
    ensures
        final (ew)@.len() == old(ew)@.len(),
        reacted == (spec_reaction(old(ew)@[idx as int].id, old(ew)@[nidx as int].id) is Some),
        !reacted ==> final (ew)@ == old(ew)@,
        reacted ==> spec_reaction(old(ew)@[idx as int].id, old(ew)@[nidx as int].id) == Some(
            final (ew)@[idx as int].id,
        ),
        reacted ==> is_instance_of(final (ew)@[idx as int], final (ew)@[idx as int].id),
        reacted ==> is_instance_of(final (ew)@[nidx as int], ElementType::Air),
        reacted ==> forall|i: int|
            0 <= i < old(ew)@.len() && i != idx && i != nidx ==> final (ew)@[i] == old(ew)@[i],
{
    let cid = ew[idx].id;
    let oid = ew[nidx].id;
    match check_reaction(&cid, &oid) {
        Some(reaction) => {
            let prod = get_element(reaction.result, rng);
            let air = get_element(ElementType::Air, rng);
            ew[idx] = prod;
            ew[nidx] = air;
            true
        },
        None => { false },
    }
}

/// What one fired reaction does to the grid facts: the product and air
/// cells are fresh catalog instances, so well-formedness, anchoredness,
/// the per-cell chemistry relation and the products-or-air frame all
/// carry over.
proof fn lemma_cell_fired_facts(g0: Seq<Element>, s: Seq<Element>, idx: int, j: int)
    requires
        g0.len() == s.len(),
        0 <= idx < g0.len(),
        0 <= j < g0.len(),
        idx != j,
        grid_wf(g0),
        is_reaction_product(s[idx].id),
        is_instance_of(s[idx], s[idx].id),
        is_instance_of(s[j], ElementType::Air),
        forall|i: int| 0 <= i < g0.len() && i != idx && i != j ==> s[i] == g0[i],
    ensures
        grid_wf(s),
        forall|i: int| 0 <= i < g0.len() ==> chem_cell_rel(g0[i], s[i]),
        grid_anchored(g0) ==> grid_anchored(s),
        forall|i: int|
            0 <= i < g0.len() ==> (#[trigger] s[i]) == g0[i] || s[i].id == ElementType::Bendium
                || s[i].id == ElementType::Air,
{
    let (a, b) = choose|a: ElementType, b: ElementType| spec_reaction(a, b) == Some(s[idx].id);
    lemma_reaction_table_shape(a, b);
    assert(s[idx].id == ElementType::Bendium);
    lemma_instance_wf(s[idx], s[idx].id);
    lemma_instance_wf(s[j], ElementType::Air);
    assert forall|i: int| 0 <= i < s.len() implies #[trigger] s[i].wf() by {
        if i != idx && i != j {
            assert(s[i] == g0[i]);
        }
    }
    assert forall|i: int| 0 <= i < g0.len() implies chem_cell_rel(g0[i], s[i]) by {
        if i != idx && i != j {
            assert(s[i] == g0[i]);
        }
    }
    if grid_anchored(g0) {
        lemma_instance_anchored(s[idx], s[idx].id);
        lemma_instance_anchored(s[j], ElementType::Air);
        assert forall|i: int| 0 <= i < s.len() implies #[trigger] element_anchored(s[i]) by {
            if i != idx && i != j {
                assert(s[i] == g0[i]);
            }
        }
    }
}

/// A flat index of a `w`-wide, `h`-tall grid has an in-range row and
/// column.
proof fn lemma_row_bound(i: int, w: int, h: int)
    requires
        0 <= i < w * h,
        1 <= w,
    ensures
        0 <= i / w < h,
        0 <= i % w < w,
{
    vstd::arithmetic::div_mod::lemma_fundamental_div_mod(i, w);
    vstd::arithmetic::div_mod::lemma_mod_bound(i, w);
    assert(0 <= i / w < h) by (nonlinear_arith)
        requires
            i == w * (i / w) + i % w && 0 <= i % w < w && 0 <= i < w * h,
    ;
}

/// Every cell 4-adjacent to `(x, y)` is one of its four orthogonal
/// neighbours, each present exactly when it is in bounds.
proof fn lemma_adjacent_cases(x: int, y: int, j: int, w: int, h: int)
    requires
        0 <= x < w,
        0 <= y < h,
        0 <= j < w * h,
        grid_adjacent(y * w + x, j, w),
    ensures
        (j == y * w + (x - 1) && x >= 1) || (j == y * w + (x + 1) && x + 1 < w) || (j == (y - 1) * w
            + x && y >= 1) || (j == (y + 1) * w + x && y + 1 < h),
{
    lemma_grid_index(x, y, w, h);
    lemma_row_bound(j, w, h);
    lemma_index_recompose(j, w);
    let i = y * w + x;
    if i / w == j / w && (i % w - j % w) * (i % w - j % w) == 1 {
        let d = i % w - j % w;
        assert(d == 1 || d == -1) by (nonlinear_arith)
            requires
                d * d == 1,
        ;
    } else {
        let d = i / w - j / w;
        assert(d == 1 || d == -1) by (nonlinear_arith)
            requires
                d * d == 1,
        ;
    }
}

/// The per-cell chemistry relation is transitive: a cell that stayed,
/// became air or became a product, and then stepped again, still stayed,
/// became air or became a product.
proof fn lemma_chem_rel_trans(a: Element, b: Element, c: Element)
    requires
        chem_cell_rel(a, b),
        chem_cell_rel(b, c),
    ensures
        chem_cell_rel(a, c),
{
}

/// Irreversible evidence that a reaction has fired: some cell that was
/// neither air nor a reaction product now carries one of those kinds.
/// Later reactions only ever write products and air, so the evidence
/// survives the rest of the pass.
spec fn chem_changed(g0: Seq<Element>, s: Seq<Element>) -> bool {
    exists|p: int|
        0 <= p < g0.len() && g0[p].id != ElementType::Bendium && g0[p].id != ElementType::Air && ((
        #[trigger] s[p]).id == ElementType::Bendium || s[p].id == ElementType::Air)
}

/// A grid whose only reactive 4-adjacent pair is `{p, q}`.
pub open spec fn isolated_pair(s: Seq<Element>, w: int, h: int, p: int, q: int) -> bool {
    &&& s.len() == w * h
    &&& 0 <= p < w * h
    &&& 0 <= q < w * h
    &&& grid_adjacent(p, q, w)
    &&& spec_reaction(s[p].id, s[q].id) is Some
    &&& (forall|i: int, j: int|
        0 <= i < w * h && 0 <= j < w * h && grid_adjacent(i, j, w) && !((i == p && j == q) || (i
            == q && j == p)) ==> (#[trigger] spec_reaction(s[i].id, s[j].id)) is None)
}

/// The isolated pair has reacted: one of its two cells holds a fresh
/// product instance, the other a fresh air instance, and every other cell
/// is untouched.
pub open spec fn pair_fired(s0: Seq<Element>, s: Seq<Element>, p: int, q: int) -> bool {
    &&& s.len() == s0.len()
    &&& ((is_instance_of(s[p], ElementType::Bendium) && is_instance_of(s[q], ElementType::Air)) || (
    is_instance_of(s[q], ElementType::Bendium) && is_instance_of(s[p], ElementType::Air)))
    &&& (forall|i: int| 0 <= i < s0.len() && i != p && i != q ==> s[i] == s0[i])
}

/// The chemistry step for one cell: its four orthogonal neighbours are
/// inspected in a fixed order and the first reactive pair fires — the
/// cell becomes a fresh instance of the product, the neighbour becomes
/// air.  Returns the consumed neighbour's index, or `None` when no
/// in-bounds neighbour reacts, in which case the grid is untouched.
#[verifier::rlimit(100)]
fn chem_cell(
    rng: &mut RandomSource,
    ew: &mut Vec<Element>,
    x: usize,
    y: usize,
    w: usize,
    h: usize,
) -> (fired: Option<usize>)
    requires
        old(ew)@.len() == w * h,
        x < w,
        y < h,
        grid_wf(old(ew)@),
    ensures
        final (ew)@.len() == w * h,
        match fired {
            None => final (ew)@ == old(ew)@ && (forall|j: int|
                0 <= j < w * h && grid_adjacent(y * w + x, j, w as int) ==> (
                #[trigger] spec_reaction(old(ew)@[y * w + x].id, old(ew)@[j].id)) is None),
            Some(j) => {
                &&& j < w * h
                &&& grid_adjacent(y * w + x, j as int, w as int)
                &&& spec_reaction(old(ew)@[y * w + x].id, old(ew)@[j as int].id) == Some(
                    final (ew)@[y * w + x].id,
                )
                &&& is_reaction_product(final (ew)@[y * w + x].id)
                &&& is_instance_of(final (ew)@[y * w + x], final (ew)@[y * w + x].id)
                &&& is_instance_of(final (ew)@[j as int], ElementType::Air)
                &&& final (ew)@[y * w + x].id != old(ew)@[y * w + x].id
                &&& (forall|i: int|
                    0 <= i < w * h && i != y * w + x && i != j ==> final (ew)@[i] == old(ew)@[i])
            },
        },
{
    let ghost g0 = ew@;
    let _len_bound: usize = ew.len();
    proof {
        lemma_grid_index(x as int, y as int, w as int, h as int);
    }
    let idx = y * w + x;
    let mut fired: Option<usize> = None;

    if x >= 1 {
        proof {
            lemma_grid_index((x - 1) as int, y as int, w as int, h as int);
            lemma_adjacent_row(x as int, x as int - 1, y as int, w as int, h as int);
        }
        let nidx = y * w + (x - 1);
        let r = chem_try(rng, ew, idx, nidx);
        proof {
            if r {
                lemma_reaction_table_shape(g0[idx as int].id, g0[nidx as int].id);
            }
        }
        if r {
            fired = Some(nidx);
        }
    }
    if fired.is_none() && x + 1 < w {
        proof {
            lemma_grid_index((x + 1) as int, y as int, w as int, h as int);
            lemma_adjacent_row(x as int, x as int + 1, y as int, w as int, h as int);
        }
        let nidx = y * w + (x + 1);
        let r = chem_try(rng, ew, idx, nidx);
        proof {
            if r {
                lemma_reaction_table_shape(g0[idx as int].id, g0[nidx as int].id);
            }
        }
        if r {
            fired = Some(nidx);
        }
    }
    if fired.is_none() && y >= 1 {
        proof {
            lemma_grid_index(x as int, (y - 1) as int, w as int, h as int);
            lemma_adjacent_col(x as int, y as int, y as int - 1, w as int, h as int);
        }
        let nidx = (y - 1) * w + x;
        let r = chem_try(rng, ew, idx, nidx);
        proof {
            if r {
                lemma_reaction_table_shape(g0[idx as int].id, g0[nidx as int].id);
            }
        }
        if r {
            fired = Some(nidx);
        }
    }
    if fired.is_none() && y + 1 < h {
        proof {
            lemma_grid_index(x as int, (y + 1) as int, w as int, h as int);
            lemma_adjacent_col(x as int, y as int, y as int + 1, w as int, h as int);
        }
        let nidx = (y + 1) * w + x;
        let r = chem_try(rng, ew, idx, nidx);
        proof {
            if r {
                lemma_reaction_table_shape(g0[idx as int].id, g0[nidx as int].id);
            }
        }
        if r {
            fired = Some(nidx);
        }
    }
    proof {
        match fired {
            None => {
                assert forall|j: int|
                    0 <= j < w * h && grid_adjacent(
                        (y * w + x) as int,
                        j,
                        w as int,
                    ) implies (#[trigger] spec_reaction(
                    g0[(y * w + x) as int].id,
                    g0[j].id,
                )) is None by {
                    lemma_adjacent_cases(x as int, y as int, j, w as int, h as int);
                }
            },
            Some(_) => {},
        }
    }
    fired
}

/// Pass 3 — chemistry: scans columns in a random direction, rows bottom
/// to top; each cell inspects its four orthogonal neighbours in a fixed
/// order and applies at most one reaction — the cell becomes the product,
/// the neighbour becomes air.  No cell ever moves: every cell either
/// stays, becomes air, or becomes a fresh instance of a reaction product.
/// A grid with no reactive pair is left untouched, an unchanged grid had
/// no reactive pair, and a grid whose only reactive pair is isolated
/// comes out with that pair reacted and nothing else touched.
#[verifier::rlimit(100)]
pub fn update_chemistry(rng: &mut RandomSource, ew: &mut Vec<Element>, w: usize, h: usize)
    requires
        old(ew)@.len() == w * h,
        1 <= w,
        1 <= h,
        grid_wf(old(ew)@),
    ensures
        final (ew)@.len() == w * h,
        grid_wf(final (ew)@),
        forall|i: int| 0 <= i < w * h ==> chem_cell_rel(old(ew)@[i], final (ew)@[i]),
        grid_anchored(old(ew)@) ==> grid_anchored(final (ew)@),
        grid_inert(old(ew)@, w as int) ==> final (ew)@ == old(ew)@,
        final (ew)@ == old(ew)@ ==> grid_inert(old(ew)@, w as int),
        forall|p: int, q: int| #[trigger] isolated_pair(old(ew)@, w as int, h as int, p, q)
            ==> pair_fired(old(ew)@, final (ew)@, p, q),
{
    let ghost g0 = ew@;
    let dir = rng.next_bool();
    let mut k: usize = 0;
    while k < w
        invariant
            ew@.len() == w * h,
            1 <= w,
            1 <= h,
            k <= w,
            g0.len() == w * h,
            grid_wf(ew@),
            forall|i: int| 0 <= i < w * h ==> chem_cell_rel(g0[i], ew@[i]),
            grid_anchored(g0) ==> grid_anchored(ew@),
            grid_inert(g0, w as int) ==> ew@ == g0,
            ew@ != g0 ==> chem_changed(g0, ew@),
            ew@ == g0 ==> (forall|i: int, j: int|
                0 <= i < w * h && 0 <= j < w * h && grid_adjacent(i, j, w as int) && col_done(
                    dir,
                    k as int,
                    w as int,
                    i % (w as int),
                ) ==> (#[trigger] spec_reaction(g0[i].id, g0[j].id)) is None),
            forall|p: int, q: int| #[trigger] isolated_pair(g0, w as int, h as int, p, q) ==> (ew@
                == g0 || pair_fired(g0, ew@, p, q)),
        decreases w - k,
    {
        let x = if dir {
            k
        } else {
            w - 1 - k
        };
        let mut y: usize = 0;
        while y < h
            invariant
                ew@.len() == w * h,
                1 <= w,
                1 <= h,
                x < w,
                y <= h,
                k < w,
                x == (if dir {
                    k as int
                } else {
                    w - 1 - k
                }),
                g0.len() == w * h,
                grid_wf(ew@),
                forall|i: int| 0 <= i < w * h ==> chem_cell_rel(g0[i], ew@[i]),
                grid_anchored(g0) ==> grid_anchored(ew@),
                grid_inert(g0, w as int) ==> ew@ == g0,
                ew@ != g0 ==> chem_changed(g0, ew@),
                ew@ == g0 ==> (forall|i: int, j: int|
                    0 <= i < w * h && 0 <= j < w * h && grid_adjacent(i, j, w as int) && (col_done(
                        dir,
                        k as int,
                        w as int,
                        i % (w as int),
                    ) || (i % (w as int) == x && i / (w as int) < y)) ==> (#[trigger] spec_reaction(
                    g0[i].id,
                    g0[j].id,
                )) is None),
                forall|p: int, q: int| #[trigger] isolated_pair(g0, w as int, h as int, p, q) ==> (
                ew@ == g0 || pair_fired(g0, ew@, p, q)),
            decreases h - y,
        {
            proof {
                lemma_grid_index(x as int, y as int, w as int, h as int);
            }
            let ghost pre = ew@;
            let ghost idx = (y * w + x) as int;
            let fired = chem_cell(rng, ew, x, y, w, h);
            proof {
                match fired {
                    Some(j) => {
                        assert(idx != j as int);
                        lemma_cell_fired_facts(pre, ew@, idx, j as int);
                    },
                    None => {},
                }
                // the irreversible-change evidence propagates through the cell
                if pre != g0 {
                    let p = choose|p: int|
                        0 <= p < g0.len() && g0[p].id != ElementType::Bendium && g0[p].id
                            != ElementType::Air && ((#[trigger] pre[p]).id == ElementType::Bendium
                            || pre[p].id == ElementType::Air);
                    assert(ew@[p] == pre[p] || ew@[p].id == ElementType::Bendium || ew@[p].id
                        == ElementType::Air);
                    assert(chem_changed(g0, ew@));
                    assert(ew@[p] != g0[p]);
                    assert(ew@ != g0);
                }
                // the per-cell relation composes
                assert forall|i: int| 0 <= i < w * h implies chem_cell_rel(g0[i], ew@[i]) by {
                    lemma_chem_rel_trans(g0[i], pre[i], ew@[i]);
                }
                // an inert grid stays untouched: a fire would contradict inertness
                if grid_inert(g0, w as int) {
                    match fired {
                        Some(j) => {
                            assert(spec_reaction(g0[idx].id, g0[j as int].id) is None);
                            assert(false);
                        },
                        None => {},
                    }
                }
                // change evidence when this cell fired from the unchanged state
                if pre == g0 {
                    match fired {
                        Some(j) => {
                            lemma_reaction_table_shape(g0[idx].id, g0[j as int].id);
                            assert(g0[idx].id != ElementType::Bendium && g0[idx].id
                                != ElementType::Air);
                            assert(ew@[idx].id == ElementType::Bendium);
                            assert(chem_changed(g0, ew@));
                            assert(ew@ != g0);
                        },
                        None => {},
                    }
                }
                // the scanned region stays non-reactive
                if ew@ == g0 {
                    assert(pre == g0);
                    assert(fired is None);
                    assert forall|i: int, j: int|
                        0 <= i < w * h && 0 <= j < w * h && grid_adjacent(i, j, w as int) && (
                        col_done(dir, k as int, w as int, i % (w as int)) || (i % (w as int) == x
                            && i / (w as int) < y + 1)) implies (#[trigger] spec_reaction(
                        g0[i].id,
                        g0[j].id,
                    )) is None by {
                        if !(col_done(dir, k as int, w as int, i % (w as int)) || (i % (w as int)
                            == x && i / (w as int) < y)) {
                            lemma_index_recompose(i, w as int);
                            assert(i == idx);
                        }
                    }
                }
                // an isolated pair reacts exactly once
                assert forall|p: int, q: int| #[trigger] isolated_pair(
                    g0,
                    w as int,
                    h as int,
                    p,
                    q,
                ) implies (ew@ == g0 || pair_fired(g0, ew@, p, q)) by {
                    if pre == g0 {
                        match fired {
                            Some(j) => {
                                assert(spec_reaction(g0[idx].id, g0[j as int].id) is Some);
                                assert((idx == p && j == q) || (idx == q && j == p));
                                lemma_reaction_table_shape(g0[idx].id, g0[j as int].id);
                                assert(is_instance_of(ew@[idx], ElementType::Bendium));
                                assert(pair_fired(g0, ew@, p, q));
                            },
                            None => {},
                        }
                    } else {
                        assert(pair_fired(g0, pre, p, q));
                        match fired {
                            Some(j) => {
                                lemma_reaction_table_shape(pre[idx].id, pre[j as int].id);
                                assert(pre[p].id == ElementType::Bendium || pre[p].id
                                    == ElementType::Air);
                                assert(pre[q].id == ElementType::Bendium || pre[q].id
                                    == ElementType::Air);
                                assert(idx != p && idx != q);
                                assert(j != p && j != q);
                                assert(pre[idx] == g0[idx] && pre[j as int] == g0[j as int]);
                                assert(spec_reaction(g0[idx].id, g0[j as int].id) is None);
                                assert(false);
                            },
                            None => {
                                assert(ew@ == pre);
                            },
                        }
                    }
                }
            }
            y = y + 1;
        }
        proof {
            if ew@ == g0 {
                assert forall|i: int, j: int|
                    0 <= i < w * h && 0 <= j < w * h && grid_adjacent(i, j, w as int) && col_done(
                        dir,
                        k as int + 1,
                        w as int,
                        i % (w as int),
                    ) implies (#[trigger] spec_reaction(g0[i].id, g0[j].id)) is None by {
                    lemma_row_bound(i, w as int, h as int);
                }
            }
        }
        k = k + 1;
    }
    proof {
        if ew@ == g0 {
            assert forall|i: int, j: int|
                0 <= i < w * h && 0 <= j < w * h && grid_adjacent(
                    i,
                    j,
                    w as int,
                ) implies (#[trigger] spec_reaction(g0[i].id, g0[j].id)) is None by {
                lemma_row_bound(i, w as int, h as int);
                assert(col_done(dir, w as int, w as int, i % (w as int)));
            }
            assert(grid_inert(g0, w as int));
        }
        assert forall|p: int, q: int| #[trigger] isolated_pair(
            g0,
            w as int,
            h as int,
            p,
            q,
        ) implies pair_fired(g0, ew@, p, q) by {
            if ew@ == g0 {
                assert(spec_reaction(g0[p].id, g0[q].id) is None);
                assert(false);
            }
        }
    }
}

/// The whole simulation: the double-buffered grid, its row count, and the
/// seedable source of every random draw the pipeline makes.
pub struct World {
    /// The grid, `cells.width` columns wide, row-major.
    pub cells: SwapBuffer<Element>,
    /// Number of rows.
    pub height: usize,
    /// The randomness source, injected at construction for reproducible
    /// runs.
    pub rng: RandomSource,
}

impl World {
    /// A well-formed world: positive dimensions, both buffers of the full
    /// grid length, every cell well-formed, and no immovable cell subject
    /// to gravity or buoyancy.
    pub open spec fn wf(self) -> bool {
        &&& 1 <= self.cells.width
        &&& 1 <= self.height
        &&& self.cells.width * self.height <= 0x4000_0000
        &&& self.cells.r@.len() == self.cells.width * self.height
        &&& self.cells.w@.len() == self.cells.width * self.height
        &&& grid_wf(self.cells.r@)
        &&& grid_anchored(self.cells.r@)
    }

    /// A fresh world of the given dimensions: roughly two cells in seven
    /// start as dirt, the rest as air.
    pub fn new(width: usize, height: usize, seed: u64) -> (wld: World)
        requires
            1 <= width,
            1 <= height,
            width * height <= 0x4000_0000,
        ensures
            wld.wf(),
            wld.cells.width == width,
            wld.height == height,
            wld.cells.r@ == wld.cells.w@,
            forall|i: int|
                0 <= i < width * height ==> is_instance_of(
                    #[trigger] wld.cells.r@[i],
                    ElementType::Dirt,
                ) || is_instance_of(wld.cells.r@[i], ElementType::Air),
    {
        let mut rng = RandomSource::from_seed(seed);
        let total = width * height;
        let mut cells: Vec<Element> = Vec::new();
        let mut i: usize = 0;
        while i < total
            invariant
                i <= total,
                total == width * height,
                cells@.len() == i,
                forall|j: int|
                    0 <= j < i ==> is_instance_of(#[trigger] cells@[j], ElementType::Dirt)
                        || is_instance_of(cells@[j], ElementType::Air),
                forall|j: int| 0 <= j < i ==> (#[trigger] cells@[j]).wf(),
                forall|j: int| 0 <= j < i ==> element_anchored(#[trigger] cells@[j]),
            decreases total - i,
        {
            let rv = rng.next_below(7);
            let e = if rv < 2 {
                let d = get_element(ElementType::Dirt, &mut rng);
                proof {
                    lemma_instance_anchored(d, ElementType::Dirt);
                }
                d
            } else {
                let a = get_element(ElementType::Air, &mut rng);
                proof {
                    lemma_instance_anchored(a, ElementType::Air);
                }
                a
            };
            cells.push(e);
            i = i + 1;
        }
        World { cells: SwapBuffer::from_arr(cells, width), height, rng }
    }

    /// Advances the simulation by one tick: the write buffer is reset to a
    /// copy of the read buffer, the three passes run against it in place,
    /// and the buffers swap, so the freshly written grid becomes readable
    /// and the previous grid becomes the next scratch buffer.
    pub fn update(&mut self)
        requires
            old(self).wf(),
        ensures
            final (self).wf(),
            final (self).cells.width == old(self).cells.width,
            final (self).height == old(self).height,
            final (self).cells.w@ == old(self).cells.r@,
            forall|i: int|
                0 <= i < old(self).cells.r@.len() && element_settled(#[trigger] old(
                    self,
                ).cells.r@[i]) ==> chem_cell_rel(old(self).cells.r@[i], final (self).cells.r@[i]),
            (grid_still(old(self).cells.r@) && grid_inert(
                old(self).cells.r@,
                old(self).cells.width as int,
            ) && (forall|i: int|
                0 <= i < old(self).cells.r@.len() ==> !(#[trigger] old(
                    self,
                ).cells.r@[i]).attributes.gas)) ==> final (self).cells.r@ == old(self).cells.r@,
            (grid_phase_free(old(self).cells.r@) && grid_unreactive(old(self).cells.r@)) ==> final (
            self).cells.r@.to_multiset() == old(self).cells.r@.to_multiset(),
            forall|x0: int, y0: int|
                (#[trigger] lone_faller(
                    old(self).cells.r@,
                    old(self).cells.width as int,
                    old(self).height as int,
                    x0,
                    y0,
                ) && grid_unreactive(old(self).cells.r@) && (forall|i: int|
                    0 <= i < old(self).cells.r@.len() ==> !(#[trigger] old(
                        self,
                    ).cells.r@[i]).attributes.gas)) ==> final (self).cells.r@ == fall_swap(
                    old(self).cells.r@,
                    old(self).cells.width as int,
                    x0,
                    y0,
                ),
            forall|x0: int, y0: int|
                (#[trigger] lone_riser(
                    old(self).cells.r@,
                    old(self).cells.width as int,
                    old(self).height as int,
                    x0,
                    y0,
                ) && grid_still(old(self).cells.r@) && grid_unreactive(old(self).cells.r@))
                    ==> final (self).cells.r@ == rise_swap(
                    old(self).cells.r@,
                    old(self).cells.width as int,
                    x0,
                    y0,
                ),
            forall|p: int, q: int|
                (#[trigger] isolated_pair(
                    old(self).cells.r@,
                    old(self).cells.width as int,
                    old(self).height as int,
                    p,
                    q,
                ) && grid_still(old(self).cells.r@) && (forall|i: int|
                    0 <= i < old(self).cells.r@.len() ==> !(#[trigger] old(
                        self,
                    ).cells.r@[i]).attributes.gas)) ==> pair_fired(
                    old(self).cells.r@,
                    final (self).cells.r@,
                    p,
                    q,
                ),
    {
        let w = self.cells.width;
        let h = self.height;
        let ghost r0 = self.cells.r@;
        let base = copy_vec(&self.cells.r);
        self.cells.w = base;
        update_main(&mut self.rng, &mut self.cells.w, w, h);
        let ghost m1 = self.cells.w@;
        update_gases(&mut self.rng, &mut self.cells.w, w, h);
        let ghost m2 = self.cells.w@;
        update_chemistry(&mut self.rng, &mut self.cells.w, w, h);
        let ghost m3 = self.cells.w@;
        self.cells.swap();
        proof {
            assert forall|i: int|
                0 <= i < r0.len() && element_settled(#[trigger] r0[i]) implies chem_cell_rel(
                r0[i],
                m3[i],
            ) by {
                assert(m1[i] == r0[i]);
                assert(m2[i] == m1[i]);
                assert(chem_cell_rel(m2[i], m3[i]));
            }
            if grid_phase_free(r0) && grid_unreactive(r0) {
                lemma_multiset_unreactive(r0, m2);
                assert(grid_inert(m2, w as int));
                assert(m3 == m2);
                assert(m3.to_multiset() == r0.to_multiset());
            }
            assert forall|x0: int, y0: int|
                (#[trigger] lone_faller(r0, w as int, h as int, x0, y0) && grid_unreactive(r0) && (
                forall|i: int|
                    0 <= i < r0.len() ==> !(#[trigger] r0[i]).attributes.gas)) implies m3
                == fall_swap(r0, w as int, x0, y0) by {
                lemma_grid_index(x0, y0, w as int, h as int);
                lemma_grid_index(x0, y0 - 1, w as int, h as int);
                let idx0 = y0 * (w as int) + x0;
                let bel = (y0 - 1) * (w as int) + x0;
                let s_after = fall_swap(r0, w as int, x0, y0);
                assert(m1 == s_after);
                assert forall|i: int| 0 <= i < w * h implies !(#[trigger] m1[i]).attributes.gas by {
                    if i == idx0 {
                        assert(m1[i] == r0[bel]);
                    } else if i == bel {
                        assert(m1[i] == r0[idx0]);
                    } else {
                        assert(m1[i] == r0[i]);
                    }
                }
                assert(m2 == m1);
                assert forall|i: int, j: int|
                    0 <= i < w * h && 0 <= j < w * h && grid_adjacent(
                        i,
                        j,
                        w as int,
                    ) implies (#[trigger] spec_reaction(m2[i].id, m2[j].id)) is None by {
                    let a = if i == idx0 {
                        bel
                    } else if i == bel {
                        idx0
                    } else {
                        i
                    };
                    let b = if j == idx0 {
                        bel
                    } else if j == bel {
                        idx0
                    } else {
                        j
                    };
                    assert(m2[i] == r0[a] && m2[j] == r0[b]);
                    assert(spec_reaction(r0[a].id, r0[b].id) is None);
                }
                assert(grid_inert(m2, w as int));
                assert(m3 == m2);
            }
            assert forall|x0: int, y0: int|
                (#[trigger] lone_riser(r0, w as int, h as int, x0, y0) && grid_still(r0)
                    && grid_unreactive(r0)) implies m3 == rise_swap(r0, w as int, x0, y0) by {
                lemma_grid_index(x0, y0, w as int, h as int);
                lemma_grid_index(x0, y0 + 1, w as int, h as int);
                let idx0 = y0 * (w as int) + x0;
                let abv = (y0 + 1) * (w as int) + x0;
                let s_after = rise_swap(r0, w as int, x0, y0);
                assert(m1 == r0);
                assert(lone_riser(m1, w as int, h as int, x0, y0));
                assert(m2 == s_after);
                assert forall|i: int, j: int|
                    0 <= i < w * h && 0 <= j < w * h && grid_adjacent(
                        i,
                        j,
                        w as int,
                    ) implies (#[trigger] spec_reaction(m2[i].id, m2[j].id)) is None by {
                    let a = if i == idx0 {
                        abv
                    } else if i == abv {
                        idx0
                    } else {
                        i
                    };
                    let b = if j == idx0 {
                        abv
                    } else if j == abv {
                        idx0
                    } else {
                        j
                    };
                    assert(m2[i] == r0[a] && m2[j] == r0[b]);
                    assert(spec_reaction(r0[a].id, r0[b].id) is None);
                }
                assert(grid_inert(m2, w as int));
                assert(m3 == m2);
            }
            assert forall|p: int, q: int|
                (#[trigger] isolated_pair(r0, w as int, h as int, p, q) && grid_still(r0) && (
                forall|i: int|
                    0 <= i < r0.len() ==> !(#[trigger] r0[i]).attributes.gas)) implies pair_fired(
                r0,
                m3,
                p,
                q,
            ) by {
                assert(m1 == r0);
                assert(m2 == m1);
                assert(isolated_pair(m2, w as int, h as int, p, q));
                assert(pair_fired(m2, m3, p, q));
            }
        }
    }

    /// Renders the read buffer: one packed 24-bit colour per cell, in
    /// row-major grid order.
    pub fn render_to(&self, buf: &mut Vec<u32>)
        requires
            self.wf(),
        ensures
            final (buf)@.len() == self.cells.r@.len(),
            forall|i: int|
                0 <= i < final (buf)@.len() ==> final (buf)@[i] == spec_render(
                    self.cells.r@[i].render_color,
                ),
    {
        buf.clear();
        let n = self.cells.r.len();
        let mut i: usize = 0;
        while i < n
            invariant
                n == self.cells.r@.len(),
                i <= n,
                self.wf(),
                buf@.len() == i,
                forall|j: int|
                    0 <= j < i ==> buf@[j] == spec_render(self.cells.r@[j].render_color),
            decreases n - i,
        {
            proof {
                assert(self.cells.r@[i as int].wf());
            }
            let c = self.cells.r[i].render();
            buf.push(c);
            i = i + 1;
        }
    }

    /// Places a freshly instantiated element of the given kind at a grid
    /// index, as the input layer does under the cursor.
    pub fn place(&mut self, kind: ElementType, index: usize)
        requires
            old(self).wf(),
            index < old(self).cells.r@.len(),
        ensures
            final (self).wf(),
            final (self).cells.width == old(self).cells.width,
            final (self).height == old(self).height,
            final (self).cells.w == old(self).cells.w,
            is_instance_of(final (self).cells.r@[index as int], kind),
            forall|i: int|
                0 <= i < old(self).cells.r@.len() && i != index ==> final (self).cells.r@[i] == old(
                    self,
                ).cells.r@[i],
    {
        let e = get_element(kind, &mut self.rng);
        proof {
            lemma_instance_anchored(e, kind);
            lemma_instance_wf(e, kind);
        }
        self.cells.r[index] = e;
        proof {
            assert forall|i: int|
                0 <= i < self.cells.r@.len() implies #[trigger] self.cells.r@[i].wf() by {
                if i != index {
                    assert(self.cells.r@[i] == old(self).cells.r@[i]);
                }
            }
            assert forall|i: int|
                0 <= i < self.cells.r@.len() implies #[trigger] element_anchored(
                self.cells.r@[i],
            ) by {
                if i != index {
                    assert(self.cells.r@[i] == old(self).cells.r@[i]);
                }
            }
        }
    }
}

} // verus!
