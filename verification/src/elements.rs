//! The element data model: material kinds, behavioural attributes, and
//! fixed-point colours.
//!
//! Colours live on a fixed-point scale where [`COLOR_ONE`] (255000) is full
//! intensity, so one display byte corresponds to 1000 units.  Densities are
//! hundredths (water is 100).  This keeps every quantity an integer while the
//! bounded colour-drift invariant stays an exact Euclidean statement.

use vstd::prelude::*;
use crate::rng::RandomSource;

verus! {

/// Full intensity of one colour channel on the fixed-point scale.
pub const COLOR_ONE: u32 = 255000;

/// Upper bound on a colour's `max_dist` drift radius (five times full
/// intensity, the catalog default for "unbounded").
pub const MAX_DIST_LIMIT: u32 = 1275000;

/// A closed enumeration of material kinds.
#[derive(Clone, Copy, Debug, PartialEq, Eq, Structural)]
pub enum ElementType {
    Air,
    Water,
    Sand,
    Dirt,
    Stone,
    Metal,
    Steam,
    Robustium,
    Bendium,
}

impl ElementType {
    /// Position of a kind in the total order used to canonicalise
    /// unordered reaction pairs.
    pub open spec fn spec_rank(self) -> int {
        match self {
            ElementType::Air => 0,
            ElementType::Water => 1,
            ElementType::Sand => 2,
            ElementType::Dirt => 3,
            ElementType::Stone => 4,
            ElementType::Metal => 5,
            ElementType::Steam => 6,
            ElementType::Robustium => 7,
            ElementType::Bendium => 8,
        }
    }

    /// The total order over kinds, as an executable rank.
    pub fn rank(self) -> (r: u8)
        ensures
            r as int == self.spec_rank(),
    {
        match self {
            ElementType::Air => 0,
            ElementType::Water => 1,
            ElementType::Sand => 2,
            ElementType::Dirt => 3,
            ElementType::Stone => 4,
            ElementType::Metal => 5,
            ElementType::Steam => 6,
            ElementType::Robustium => 7,
            ElementType::Bendium => 8,
        }
    }
}

/// One behavioural capability tag, as written in a catalog entry.
#[derive(Clone, Copy, Debug, PartialEq, Eq, Structural)]
pub enum Attribute {
    /// May transition to the given kind under evaporation pressure.
    CanEvaporate(ElementType),
    /// May transition to the given kind under condensation pressure.
    CanCondensate(ElementType),
    /// Reserved directional-growth strength, in thousandths.
    PillarLike(u32),
    Conductive,
    CanFall,
    Solid,
    Liquid,
    Gas,
    Immovable,
    Sparkle,
    Air,
}

/// The capability set a cell carries: a fixed-capacity record over the closed
/// attribute enumeration, giving constant-time membership tests.
#[derive(Clone, Copy, Debug, PartialEq)]
pub struct AttributeSet {
    pub can_fall: bool,
    pub solid: bool,
    pub liquid: bool,
    pub gas: bool,
    pub air: bool,
    pub immovable: bool,
    pub sparkle: bool,
    pub conductive: bool,
    /// Evaporation target, if the cell can evaporate.
    pub evaporate: Option<ElementType>,
    /// Condensation target, if the cell can condense.
    pub condensate: Option<ElementType>,
    /// Directional-growth strength in thousandths, if present.
    pub pillar: Option<u32>,
}

impl AttributeSet {
    /// The set with no capabilities.
    pub open spec fn spec_empty() -> AttributeSet {
        AttributeSet {
            can_fall: false,
            solid: false,
            liquid: false,
            gas: false,
            air: false,
            immovable: false,
            sparkle: false,
            conductive: false,
            evaporate: None,
            condensate: None,
            pillar: None,
        }
    }

    /// Adding one tag to a set; for the parameterised tags the first
    /// occurrence wins, as in a front-to-back scan of an attribute list.
    pub open spec fn spec_add(self, a: Attribute) -> AttributeSet {
        match a {
            Attribute::CanFall => AttributeSet { can_fall: true, ..self },
            Attribute::Solid => AttributeSet { solid: true, ..self },
            Attribute::Liquid => AttributeSet { liquid: true, ..self },
            Attribute::Gas => AttributeSet { gas: true, ..self },
            Attribute::Air => AttributeSet { air: true, ..self },
            Attribute::Immovable => AttributeSet { immovable: true, ..self },
            Attribute::Sparkle => AttributeSet { sparkle: true, ..self },
            Attribute::Conductive => AttributeSet { conductive: true, ..self },
            Attribute::CanEvaporate(t) => if self.evaporate is None {
                AttributeSet { evaporate: Some(t), ..self }
            } else {
                self
            },
            Attribute::CanCondensate(t) => if self.condensate is None {
                AttributeSet { condensate: Some(t), ..self }
            } else {
                self
            },
            Attribute::PillarLike(v) => if self.pillar is None {
                AttributeSet { pillar: Some(v), ..self }
            } else {
                self
            },
        }
    }

    /// The set described by an attribute list, scanned front to back.
    pub open spec fn spec_of_list(s: Seq<Attribute>) -> AttributeSet
        decreases s.len(),
    {
        if s.len() == 0 {
            AttributeSet::spec_empty()
        } else {
            AttributeSet::spec_of_list(s.drop_last()).spec_add(s.last())
        }
    }

    /// The empty capability set.
    pub fn empty() -> (r: AttributeSet)
        ensures
            r == AttributeSet::spec_empty(),
    {
        AttributeSet {
            can_fall: false,
            solid: false,
            liquid: false,
            gas: false,
            air: false,
            immovable: false,
            sparkle: false,
            conductive: false,
            evaporate: None,
            condensate: None,
            pillar: None,
        }
    }

    /// Adds one tag; the first parameterised tag of each kind wins.
    pub fn add(self, a: Attribute) -> (r: AttributeSet)
        ensures
            r == self.spec_add(a),
    {
        match a {
            Attribute::CanFall => AttributeSet { can_fall: true, ..self },
            Attribute::Solid => AttributeSet { solid: true, ..self },
            Attribute::Liquid => AttributeSet { liquid: true, ..self },
            Attribute::Gas => AttributeSet { gas: true, ..self },
            Attribute::Air => AttributeSet { air: true, ..self },
            Attribute::Immovable => AttributeSet { immovable: true, ..self },
            Attribute::Sparkle => AttributeSet { sparkle: true, ..self },
            Attribute::Conductive => AttributeSet { conductive: true, ..self },
            Attribute::CanEvaporate(t) => {
                match self.evaporate {
                    None => AttributeSet { evaporate: Some(t), ..self },
                    Some(_) => self,
                }
            },
            Attribute::CanCondensate(t) => {
                match self.condensate {
                    None => AttributeSet { condensate: Some(t), ..self },
                    Some(_) => self,
                }
            },
            Attribute::PillarLike(v) => {
                match self.pillar {
                    None => AttributeSet { pillar: Some(v), ..self },
                    Some(_) => self,
                }
            },
        }
    }

    /// Builds the set from an attribute list, front to back.
    pub fn of_list(attrs: &Vec<Attribute>) -> (r: AttributeSet)
        ensures
            r == AttributeSet::spec_of_list(attrs@),
    {
        let mut set = AttributeSet::empty();
        let mut i: usize = 0;
        while i < attrs.len()
            invariant
                i <= attrs@.len(),
                set == AttributeSet::spec_of_list(attrs@.take(i as int)),
            decreases attrs@.len() - i,
        {
            set = set.add(attrs[i]);
            proof {
                assert(attrs@.take(i + 1).drop_last() =~= attrs@.take(i as int));
                assert(attrs@.take(i + 1).last() == attrs@[i as int]);
            }
            i = i + 1;
        }
        proof {
            assert(attrs@.take(attrs@.len() as int) =~= attrs@);
        }
        set
    }
}

/// A base colour with its symmetric per-channel variance bounds (`rv`, `gv`,
/// `bv`), a shared darkening-bias bound (`dv`) and the maximum Euclidean
/// drift radius `max_dist`, all in channel units of 1/[`COLOR_ONE`].
#[derive(Clone, Copy, Debug, PartialEq)]
pub struct ElementColor {
    pub r: u32,
    pub g: u32,
    pub b: u32,
    pub rv: u32,
    pub gv: u32,
    pub bv: u32,
    pub dv: u32,
    pub max_dist: u32,
}

/// The colour a cell is actually displayed with.
#[derive(Clone, Copy, Debug, PartialEq)]
pub struct RenderColor {
    pub r: u32,
    pub g: u32,
    pub b: u32,
}

impl ElementColor {
    /// Channels and variance bounds stay on the scale; the drift radius is
    /// bounded so that squared distances fit comfortably in 64 bits.
    pub open spec fn wf(self) -> bool {
        &&& self.r <= COLOR_ONE
        &&& self.g <= COLOR_ONE
        &&& self.b <= COLOR_ONE
        &&& self.rv <= COLOR_ONE
        &&& self.gv <= COLOR_ONE
        &&& self.bv <= COLOR_ONE
        &&& self.dv <= COLOR_ONE
        &&& self.max_dist <= MAX_DIST_LIMIT
    }

    pub fn new(r: u32, g: u32, b: u32, rv: u32, gv: u32, bv: u32, dv: u32, max_dist: u32) -> (c:
        ElementColor)
        ensures
            c == (ElementColor { r, g, b, rv, gv, bv, dv, max_dist }),
    {
        ElementColor { r, g, b, rv, gv, bv, dv, max_dist }
    }
}

impl Default for ElementColor {
    /// Black, no variance, and a drift radius wide enough never to bind.
    fn default() -> (c: ElementColor)
        ensures
            c == (ElementColor {
                r: 0,
                g: 0,
                b: 0,
                rv: 0,
                gv: 0,
                bv: 0,
                dv: 0,
                max_dist: MAX_DIST_LIMIT,
            }),
    {
        ElementColor { r: 0, g: 0, b: 0, rv: 0, gv: 0, bv: 0, dv: 0, max_dist: MAX_DIST_LIMIT }
    }
}

impl RenderColor {
    pub open spec fn wf(self) -> bool {
        &&& self.r <= COLOR_ONE
        &&& self.g <= COLOR_ONE
        &&& self.b <= COLOR_ONE
    }
}

/// Squared Euclidean distance between a display colour and a base colour,
/// channel-wise on the fixed-point scale.
pub open spec fn color_dist_sq(c: RenderColor, base: ElementColor) -> int {
    let dr = c.r - base.r;
    let dg = c.g - base.g;
    let db = c.b - base.b;
    dr * dr + dg * dg + db * db
}

/// A concrete cell value.
#[derive(Clone, Copy, Debug, PartialEq)]
pub struct Element {
    /// Display name.
    pub name: &'static str,
    /// Material kind.
    pub id: ElementType,
    /// Behavioural capability set; never mutated after construction.
    pub attributes: AttributeSet,
    /// Base colour and variance bounds.
    pub color: ElementColor,
    /// The displayed colour, perturbed at creation and, for `Sparkle`
    /// cells, once per tick.
    pub render_color: RenderColor,
    /// Reserved heat content, in thousandths.
    pub heat: u32,
    /// Reserved moisture content, in thousandths.
    pub moisture: u32,
    /// Density in hundredths; displacement flows toward strictly lower
    /// density.
    pub density: u32,
    /// Whether the cell is currently falling (affects the diagonal
    /// tie-break).
    pub falling: bool,
}

impl Element {
    /// A well-formed cell: its colours sit on the fixed-point scale and the
    /// displayed colour has not drifted past `max_dist` from the base.
    pub open spec fn wf(self) -> bool {
        &&& self.color.wf()
        &&& self.render_color.wf()
        &&& color_dist_sq(self.render_color, self.color) <= self.color.max_dist
            * self.color.max_dist
    }

    /// A new cell starts displayed in its base colour and falling.
    pub fn new(
        name: &'static str,
        id: ElementType,
        attributes: Vec<Attribute>,
        color: ElementColor,
        heat: u32,
        moisture: u32,
        density: u32,
    ) -> (e: Element)
        ensures
            e.name == name,
            e.id == id,
            e.attributes == AttributeSet::spec_of_list(attributes@),
            e.color == color,
            e.render_color == (RenderColor { r: color.r, g: color.g, b: color.b }),
            e.heat == heat,
            e.moisture == moisture,
            e.density == density,
            e.falling,
    {
        let attrs = AttributeSet::of_list(&attributes);
        Element {
            name,
            id,
            attributes: attrs,
            color,
            render_color: RenderColor { r: color.r, g: color.g, b: color.b },
            heat,
            moisture,
            density,
            falling: true,
        }
    }
}

/// Clamps a perturbed channel back onto the fixed-point scale.
fn clamp_channel(x: i64) -> (r: u32)
    ensures
        r == (if x < 0 {
            0int
        } else if x > COLOR_ONE {
            COLOR_ONE as int
        } else {
            x as int
        }),
{
    if x < 0 {
        0
    } else if x > COLOR_ONE as i64 {
        COLOR_ONE
    } else {
        x as u32
    }
}

/// Ceiling integer square root: the least `s` with `s * s >= n`.
fn isqrt_ceil(n: u64) -> (s: u64)
    requires
        n <= 250_000_000_000,
    ensures
        s * s >= n,
        s > 0 ==> (s - 1) * (s - 1) < n,
        s <= 500_000,
{
    let mut lo: u64 = 0;
    let mut hi: u64 = 500_000;
    while lo < hi
        invariant
            lo <= hi <= 500_000,
            hi * hi >= n,
            lo > 0 ==> (lo - 1) * (lo - 1) < n,
        decreases hi - lo,
    {
        let mid: u64 = lo + (hi - lo) / 2;
        proof {
            assert(mid * mid <= 250_000_000_000) by (nonlinear_arith)
                requires
                    mid <= 500_000u64,
            ;
        }
        if mid * mid >= n {
            hi = mid;
        } else {
            lo = mid + 1;
        }
    }
    lo
}

/// Scales a signed delta by `m / s`, truncating toward zero, so that the
/// result keeps the delta's sign and `|e| * s <= |d| * m`.
fn scale_delta(d: i64, m: u64, s: u64) -> (e: i64)
    requires
        1 <= s <= 500_000,
        m <= s,
        -255_000 <= d <= 255_000,
    ensures
        d >= 0 ==> 0 <= e <= d,
        d <= 0 ==> d <= e <= 0,
        vstd::math::abs(e as int) * s <= vstd::math::abs(d as int) * m,
{
    let a: u64 = if d < 0 {
        (-d) as u64
    } else {
        d as u64
    };
    proof {
        assert(a * m <= 255_000u64 * 500_000) by (nonlinear_arith)
            requires
                a <= 255_000u64 && m <= 500_000u64,
        ;
    }
    let q: u64 = (a * m) / s;
    proof {
        vstd::arithmetic::div_mod::lemma_fundamental_div_mod((a * m) as int, s as int);
        vstd::arithmetic::div_mod::lemma_mod_bound((a * m) as int, s as int);
        assert(q * s <= a * m) by (nonlinear_arith)
            requires
                a * m == s * q + (a * m) % (s as int) && (a * m) % (s as int) >= 0,
        ;
        assert(a * m <= a * s) by (nonlinear_arith)
            requires
                m <= s && a >= 0,
        ;
        assert(q <= a) by (nonlinear_arith)
            requires
                q * s <= a * s && s >= 1 && q >= 0 && a >= 0,
        ;
    }
    if d < 0 {
        -(q as i64)
    } else {
        q as i64
    }
}

/// `0 <= x <= b` implies `x * x <= b * b`; with symmetric lower bound,
/// `-b <= x <= b` gives `0 <= x * x <= b * b`.
proof fn lemma_sq_bound(x: int, b: int)
    requires
        -b <= x <= b,
    ensures
        0 <= x * x <= b * b,
{
    assert(0 <= x * x <= b * b) by (nonlinear_arith)
        requires
            -b <= x <= b,
    ;
}

impl Element {
    /// Displays the cell as a packed 24-bit colour: each channel rounded to
    /// a byte, red in the high bits.
    pub fn render(&self) -> (c: u32)
        requires
            self.render_color.wf(),
        ensures
            c == spec_render(self.render_color),
    {
        let r: u32 = (self.render_color.r + 500) / 1000;
        let g: u32 = (self.render_color.g + 500) / 1000;
        let b: u32 = (self.render_color.b + 500) / 1000;
        r * 65536 + g * 256 + b
    }

    /// A fresh cell derived from this one by one colour-variance draw.
    pub fn create(&self, rng: &mut RandomSource) -> (e: Element)
        requires
            self.wf(),
        ensures
            e.wf(),
            same_but_color(*self, e),
            (self.color.rv == 0 && self.color.gv == 0 && self.color.bv == 0 && self.color.dv == 0)
                ==> e.render_color == self.render_color,
    {
        let mut e = *self;
        e.vary_color(rng);
        e
    }

    /// Perturbs the displayed colour: one uniform delta per channel within
    /// that channel's variance bound, plus one shared darkening delta within
    /// `dv`, clamped to the scale.  If the perturbed colour leaves the
    /// `max_dist` sphere around the base colour, the delta vector is scaled
    /// back inside it, so the Euclidean drift from the base never exceeds
    /// `max_dist`.
    pub fn vary_color(&mut self, rng: &mut RandomSource)
        requires
            old(self).wf(),
        ensures
            final (self).wf(),
            same_but_color(*old(self), *final (self)),
            (old(self).color.rv == 0 && old(self).color.gv == 0 && old(self).color.bv == 0 && old(
                self,
            ).color.dv == 0) ==> final (self).render_color == old(self).render_color,
    {
        let c = self.color;
        let darken: i64 = rng.next_delta(c.dv);
        let vr: i64 = rng.next_delta(c.rv);
        let vg: i64 = rng.next_delta(c.gv);
        let vb: i64 = rng.next_delta(c.bv);

        let nr: u32 = clamp_channel(self.render_color.r as i64 + vr + darken);
        let ng: u32 = clamp_channel(self.render_color.g as i64 + vg + darken);
        let nb: u32 = clamp_channel(self.render_color.b as i64 + vb + darken);

        let dr: i64 = nr as i64 - c.r as i64;
        let dg: i64 = ng as i64 - c.g as i64;
        let db: i64 = nb as i64 - c.b as i64;
        proof {
            lemma_sq_bound(dr as int, 255_000);
            lemma_sq_bound(dg as int, 255_000);
            lemma_sq_bound(db as int, 255_000);
            lemma_sq_bound(c.max_dist as int, MAX_DIST_LIMIT as int);
        }
        let d2: i64 = dr * dr + dg * dg + db * db;
        let m: u64 = c.max_dist as u64;
        let m2: i64 = (m * m) as i64;

        if d2 <= m2 {
            self.render_color = RenderColor { r: nr, g: ng, b: nb };
        } else {
            let s: u64 = isqrt_ceil(d2 as u64);
            proof {
                assert(m < s) by (nonlinear_arith)
                    requires
                        s * s >= d2 && d2 > m * m && s >= 0 && m >= 0,
                ;
            }
            let er: i64 = scale_delta(dr, m, s);
            let eg: i64 = scale_delta(dg, m, s);
            let eb: i64 = scale_delta(db, m, s);
            proof {
                lemma_scaled_within(
                    dr as int,
                    dg as int,
                    db as int,
                    er as int,
                    eg as int,
                    eb as int,
                    m as int,
                    s as int,
                );
            }
            let fr: u32 = (c.r as i64 + er) as u32;
            let fg: u32 = (c.g as i64 + eg) as u32;
            let fb: u32 = (c.b as i64 + eb) as u32;
            self.render_color = RenderColor { r: fr, g: fg, b: fb };
        }
    }
}

/// If each scaled delta keeps its magnitude below `m / s` of the original
/// and the original vector has squared length at most `s * s`, the scaled
/// vector has squared length at most `m * m`.
proof fn lemma_scaled_within(
    dr: int,
    dg: int,
    db: int,
    er: int,
    eg: int,
    eb: int,
    m: int,
    s: int,
)
    requires
        1 <= s,
        0 <= m,
        vstd::math::abs(er) * s <= vstd::math::abs(dr) * m,
        vstd::math::abs(eg) * s <= vstd::math::abs(dg) * m,
        vstd::math::abs(eb) * s <= vstd::math::abs(db) * m,
        dr * dr + dg * dg + db * db <= s * s,
    ensures
        er * er + eg * eg + eb * eb <= m * m,
{
    lemma_scaled_channel(dr, er, m, s);
    lemma_scaled_channel(dg, eg, m, s);
    lemma_scaled_channel(db, eb, m, s);
    assert((er * er + eg * eg + eb * eb) * (s * s) <= (dr * dr + dg * dg + db * db) * (m * m))
        by (nonlinear_arith)
        requires
            (er * er) * (s * s) <= (dr * dr) * (m * m),
            (eg * eg) * (s * s) <= (dg * dg) * (m * m),
            (eb * eb) * (s * s) <= (db * db) * (m * m),
    ;
    assert((dr * dr + dg * dg + db * db) * (m * m) <= (s * s) * (m * m)) by (nonlinear_arith)
        requires
            dr * dr + dg * dg + db * db <= s * s && m * m >= 0,
    ;
    assert(s * s >= 1) by (nonlinear_arith)
        requires
            s >= 1,
    ;
    assert(er * er + eg * eg + eb * eb <= m * m) by (nonlinear_arith)
        requires
            (er * er + eg * eg + eb * eb) * (s * s) <= (dr * dr + dg * dg + db * db) * (m * m),
            (dr * dr + dg * dg + db * db) * (m * m) <= (s * s) * (m * m),
            s * s >= 1,
    ;
}

/// One channel of the scaling argument: from `|e| * s <= |d| * m` follows
/// `e^2 * s^2 <= d^2 * m^2`.
proof fn lemma_scaled_channel(d: int, e: int, m: int, s: int)
    requires
        1 <= s,
        0 <= m,
        vstd::math::abs(e) * s <= vstd::math::abs(d) * m,
    ensures
        (e * e) * (s * s) <= (d * d) * (m * m),
{
    let ea = vstd::math::abs(e) as int;
    let da = vstd::math::abs(d) as int;
    assert((ea * s) * (ea * s) <= (da * m) * (da * m)) by (nonlinear_arith)
        requires
            0 <= ea * s && ea * s <= da * m,
    ;
    assert((ea * s) * (ea * s) == (ea * ea) * (s * s)) by (nonlinear_arith);
    assert((da * m) * (da * m) == (da * da) * (m * m)) by (nonlinear_arith);
    assert(ea * ea == e * e) by (nonlinear_arith)
        requires
            ea == vstd::math::abs(e),
    ;
    assert(da * da == d * d) by (nonlinear_arith)
        requires
            da == vstd::math::abs(d),
    ;
}

/// The packed 24-bit display value of a colour: each channel rounded to a
/// byte, laid out as `(r << 16) | (g << 8) | b`.
pub open spec fn spec_render(c: RenderColor) -> int {
    ((c.r + 500) / 1000) * 65536 + ((c.g + 500) / 1000) * 256 + (c.b + 500) / 1000
}

/// Two cells that agree in everything but their displayed colour, the
/// second still within its drift radius: the relation a `Sparkle`
/// re-randomisation respects.
pub open spec fn same_but_color(a: Element, b: Element) -> bool {
    &&& b.name@ == a.name@
    &&& b.id == a.id
    &&& b.attributes == a.attributes
    &&& b.color == a.color
    &&& b.heat == a.heat
    &&& b.moisture == a.moisture
    &&& b.density == a.density
    &&& b.falling == a.falling
    &&& b.render_color.wf()
    &&& color_dist_sq(b.render_color, b.color) <= b.color.max_dist * b.color.max_dist
}

} // verus!
