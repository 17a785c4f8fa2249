//! The element catalog: one canonical, immutable template per material
//! kind.  Cells are instantiated by cloning a template and drawing one
//! colour variance, so every live cell is an *instance* of its template:
//! equal to it in everything but the displayed colour, which stays within
//! the template's drift radius.
//!
//! Colour channels are in units of 1/[`COLOR_ONE`](crate::elements::COLOR_ONE),
//! densities in hundredths.

use vstd::prelude::*;
use crate::elements::{
    Attribute, AttributeSet, Element, ElementColor, ElementType, RenderColor, MAX_DIST_LIMIT,
};
use crate::rng::RandomSource;

verus! {

/// The capability set of a kind's template.
pub open spec fn template_attrs(t: ElementType) -> AttributeSet {
    match t {
        ElementType::Air => AttributeSet { air: true, ..AttributeSet::spec_empty() },
        ElementType::Water => AttributeSet {
            can_fall: true,
            liquid: true,
            sparkle: true,
            evaporate: Some(ElementType::Steam),
            ..AttributeSet::spec_empty()
        },
        ElementType::Sand => AttributeSet {
            can_fall: true,
            solid: true,
            ..AttributeSet::spec_empty()
        },
        ElementType::Dirt => AttributeSet {
            can_fall: true,
            solid: true,
            ..AttributeSet::spec_empty()
        },
        ElementType::Stone => AttributeSet {
            immovable: true,
            solid: true,
            ..AttributeSet::spec_empty()
        },
        ElementType::Metal => AttributeSet {
            immovable: true,
            solid: true,
            conductive: true,
            ..AttributeSet::spec_empty()
        },
        ElementType::Steam => AttributeSet {
            gas: true,
            condensate: Some(ElementType::Water),
            ..AttributeSet::spec_empty()
        },
        ElementType::Robustium => AttributeSet {
            can_fall: true,
            pillar: Some(80u32),
            ..AttributeSet::spec_empty()
        },
        ElementType::Bendium => AttributeSet {
            can_fall: true,
            liquid: true,
            sparkle: true,
            ..AttributeSet::spec_empty()
        },
    }
}

/// The base colour and variance bounds of a kind's template.
pub open spec fn template_color(t: ElementType) -> ElementColor {
    match t {
        ElementType::Air => ElementColor {
            r: 80000,
            g: 180000,
            b: 210000,
            rv: 0,
            gv: 0,
            bv: 0,
            dv: 0,
            max_dist: MAX_DIST_LIMIT,
        },
        ElementType::Water => ElementColor {
            r: 10000,
            g: 80000,
            b: 235000,
            rv: 0,
            gv: 0,
            bv: 0,
            dv: 1020,
            max_dist: 3825,
        },
        ElementType::Sand => ElementColor {
            r: 210000,
            g: 190000,
            b: 110000,
            rv: 25500,
            gv: 2550,
            bv: 2550,
            dv: 20400,
            max_dist: MAX_DIST_LIMIT,
        },
        ElementType::Dirt => ElementColor {
            r: 26000,
            g: 15000,
            b: 7300,
            rv: 1275,
            gv: 1275,
            bv: 0,
            dv: 5100,
            max_dist: MAX_DIST_LIMIT,
        },
        ElementType::Stone => ElementColor {
            r: 40000,
            g: 40000,
            b: 40000,
            rv: 2550,
            gv: 5100,
            bv: 7650,
            dv: 25500,
            max_dist: MAX_DIST_LIMIT,
        },
        ElementType::Metal => ElementColor {
            r: 100000,
            g: 100000,
            b: 110000,
            rv: 5100,
            gv: 5100,
            bv: 7650,
            dv: 12750,
            max_dist: MAX_DIST_LIMIT,
        },
        ElementType::Steam => ElementColor {
            r: 150000,
            g: 220000,
            b: 230000,
            rv: 2550,
            gv: 7650,
            bv: 17850,
            dv: 2550,
            max_dist: MAX_DIST_LIMIT,
        },
        ElementType::Robustium => ElementColor {
            r: 7500,
            g: 25000,
            b: 5500,
            rv: 0,
            gv: 12750,
            bv: 0,
            dv: 12750,
            max_dist: MAX_DIST_LIMIT,
        },
        ElementType::Bendium => ElementColor {
            r: 127500,
            g: 127500,
            b: 127500,
            rv: 15300,
            gv: 10200,
            bv: 2550,
            dv: 0,
            max_dist: 127500,
        },
    }
}

/// The density of a kind's template, in hundredths.
pub open spec fn template_density(t: ElementType) -> u32 {
    match t {
        ElementType::Air => 12,
        ElementType::Water => 100,
        ElementType::Sand => 150,
        ElementType::Dirt => 120,
        ElementType::Stone => 267,
        ElementType::Metal => 780,
        ElementType::Steam => 8,
        ElementType::Robustium => 170,
        ElementType::Bendium => 105,
    }
}

/// The display name of a kind's template.
pub open spec fn template_name(t: ElementType) -> Seq<char> {
    match t {
        ElementType::Air => "Air"@,
        ElementType::Water => "Water"@,
        ElementType::Sand => "Sand"@,
        ElementType::Dirt => "Dirt"@,
        ElementType::Stone => "Stone"@,
        ElementType::Metal => "Metal"@,
        ElementType::Steam => "Steam"@,
        ElementType::Robustium => "Robustium"@,
        ElementType::Bendium => "Bendium"@,
    }
}

/// A cell that is exactly the canonical template of kind `t`, displayed in
/// its base colour.
pub open spec fn is_template_of(e: Element, t: ElementType) -> bool {
    &&& e.id == t
    &&& e.name@ == template_name(t)
    &&& e.attributes == template_attrs(t)
    &&& e.color == template_color(t)
    &&& e.render_color == (RenderColor {
        r: template_color(t).r,
        g: template_color(t).g,
        b: template_color(t).b,
    })
    &&& e.heat == 0
    &&& e.moisture == 0
    &&& e.density == template_density(t)
    &&& e.falling
}

/// A cell instantiated from the template of kind `t`: equal to it in
/// everything but the displayed colour, which sits within the drift radius.
pub open spec fn is_instance_of(e: Element, t: ElementType) -> bool {
    &&& e.id == t
    &&& e.name@ == template_name(t)
    &&& e.attributes == template_attrs(t)
    &&& e.color == template_color(t)
    &&& e.heat == 0
    &&& e.moisture == 0
    &&& e.density == template_density(t)
    &&& e.falling
    &&& e.render_color.wf()
    &&& crate::elements::color_dist_sq(e.render_color, e.color) <= e.color.max_dist
        * e.color.max_dist
}

/// The display name of a kind.
pub fn name_of(t: ElementType) -> (r: &'static str)
    ensures
        r@ == template_name(t),
{
    match t {
        ElementType::Air => "Air",
        ElementType::Water => "Water",
        ElementType::Sand => "Sand",
        ElementType::Dirt => "Dirt",
        ElementType::Stone => "Stone",
        ElementType::Metal => "Metal",
        ElementType::Steam => "Steam",
        ElementType::Robustium => "Robustium",
        ElementType::Bendium => "Bendium",
    }
}

/// The capability set of a kind's template.
fn attrs_of(t: ElementType) -> (r: AttributeSet)
    ensures
        r == template_attrs(t),
{
    let empty = AttributeSet::empty();
    match t {
        ElementType::Air => AttributeSet { air: true, ..empty },
        ElementType::Water => AttributeSet {
            can_fall: true,
            liquid: true,
            sparkle: true,
            evaporate: Some(ElementType::Steam),
            ..empty
        },
        ElementType::Sand => AttributeSet { can_fall: true, solid: true, ..empty },
        ElementType::Dirt => AttributeSet { can_fall: true, solid: true, ..empty },
        ElementType::Stone => AttributeSet { immovable: true, solid: true, ..empty },
        ElementType::Metal => AttributeSet { immovable: true, solid: true, conductive: true, ..empty },
        ElementType::Steam => AttributeSet {
            gas: true,
            condensate: Some(ElementType::Water),
            ..empty
        },
        ElementType::Robustium => AttributeSet { can_fall: true, pillar: Some(80u32), ..empty },
        ElementType::Bendium => AttributeSet { can_fall: true, liquid: true, sparkle: true, ..empty },
    }
}

/// The base colour of a kind's template.
fn color_of(t: ElementType) -> (r: ElementColor)
    ensures
        r == template_color(t),
{
    match t {
        ElementType::Air => ElementColor {
            r: 80000,
            g: 180000,
            b: 210000,
            rv: 0,
            gv: 0,
            bv: 0,
            dv: 0,
            max_dist: MAX_DIST_LIMIT,
        },
        ElementType::Water => ElementColor {
            r: 10000,
            g: 80000,
            b: 235000,
            rv: 0,
            gv: 0,
            bv: 0,
            dv: 1020,
            max_dist: 3825,
        },
        ElementType::Sand => ElementColor {
            r: 210000,
            g: 190000,
            b: 110000,
            rv: 25500,
            gv: 2550,
            bv: 2550,
            dv: 20400,
            max_dist: MAX_DIST_LIMIT,
        },
        ElementType::Dirt => ElementColor {
            r: 26000,
            g: 15000,
            b: 7300,
            rv: 1275,
            gv: 1275,
            bv: 0,
            dv: 5100,
            max_dist: MAX_DIST_LIMIT,
        },
        ElementType::Stone => ElementColor {
            r: 40000,
            g: 40000,
            b: 40000,
            rv: 2550,
            gv: 5100,
            bv: 7650,
            dv: 25500,
            max_dist: MAX_DIST_LIMIT,
        },
        ElementType::Metal => ElementColor {
            r: 100000,
            g: 100000,
            b: 110000,
            rv: 5100,
            gv: 5100,
            bv: 7650,
            dv: 12750,
            max_dist: MAX_DIST_LIMIT,
        },
        ElementType::Steam => ElementColor {
            r: 150000,
            g: 220000,
            b: 230000,
            rv: 2550,
            gv: 7650,
            bv: 17850,
            dv: 2550,
            max_dist: MAX_DIST_LIMIT,
        },
        ElementType::Robustium => ElementColor {
            r: 7500,
            g: 25000,
            b: 5500,
            rv: 0,
            gv: 12750,
            bv: 0,
            dv: 12750,
            max_dist: MAX_DIST_LIMIT,
        },
        ElementType::Bendium => ElementColor {
            r: 127500,
            g: 127500,
            b: 127500,
            rv: 15300,
            gv: 10200,
            bv: 2550,
            dv: 0,
            max_dist: 127500,
        },
    }
}

/// The density of a kind's template, in hundredths.
fn density_of(t: ElementType) -> (r: u32)
    ensures
        r == template_density(t),
{
    match t {
        ElementType::Air => 12,
        ElementType::Water => 100,
        ElementType::Sand => 150,
        ElementType::Dirt => 120,
        ElementType::Stone => 267,
        ElementType::Metal => 780,
        ElementType::Steam => 8,
        ElementType::Robustium => 170,
        ElementType::Bendium => 105,
    }
}

/// Looks a kind up in the catalog and returns its canonical template.
pub fn template_of(t: ElementType) -> (e: Element)
    ensures
        is_template_of(e, t),
        e.wf(),
{
    let color = color_of(t);
    let e = Element {
        name: name_of(t),
        id: t,
        attributes: attrs_of(t),
        color,
        render_color: RenderColor { r: color.r, g: color.g, b: color.b },
        heat: 0,
        moisture: 0,
        density: density_of(t),
        falling: true,
    };
    proof {
        assert(e.color.wf());
        assert(e.render_color.wf());
        assert(crate::elements::color_dist_sq(e.render_color, e.color) == 0);
        assert(e.color.max_dist * e.color.max_dist >= 0) by (nonlinear_arith);
        assert(e.wf());
    }
    e
}

/// Instantiates a cell of kind `t`: the template with one fresh colour
/// variance drawn from `rng`.
pub fn get_element(t: ElementType, rng: &mut RandomSource) -> (e: Element)
    ensures
        is_instance_of(e, t),
        e.wf(),
{
    let template = template_of(t);
    template.create(rng)
}

} // verus!
