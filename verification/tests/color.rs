use falling_sand::catalog::{get_element, template_of};
use falling_sand::elements::{Attribute, AttributeSet, Element, ElementColor, ElementType};
use falling_sand::rng::RandomSource;

fn dist_sq(e: &Element) -> i64 {
    let dr = e.render_color.r as i64 - e.color.r as i64;
    let dg = e.render_color.g as i64 - e.color.g as i64;
    let db = e.render_color.b as i64 - e.color.b as i64;
    dr * dr + dg * dg + db * db
}

#[test]
fn variance_stays_within_max_dist() {
    let mut rng = RandomSource::from_seed(7);
    for _ in 0..200 {
        let e = get_element(ElementType::Bendium, &mut rng);
        let m = e.color.max_dist as i64;
        assert!(dist_sq(&e) <= m * m);
        assert!(e.render_color.r <= 255000);
        assert!(e.render_color.g <= 255000);
        assert!(e.render_color.b <= 255000);
    }
}

#[test]
fn variance_stays_within_max_dist_for_every_kind() {
    let mut rng = RandomSource::from_seed(99);
    let kinds = [
        ElementType::Air,
        ElementType::Water,
        ElementType::Sand,
        ElementType::Dirt,
        ElementType::Stone,
        ElementType::Metal,
        ElementType::Steam,
        ElementType::Robustium,
        ElementType::Bendium,
    ];
    for kind in kinds {
        for _ in 0..50 {
            let e = get_element(kind, &mut rng);
            let m = e.color.max_dist as i64;
            assert!(dist_sq(&e) <= m * m);
        }
    }
}

#[test]
fn zero_variance_gives_exact_base_color() {
    // Air's template has rv = gv = bv = dv = 0, so instantiation must
    // reproduce the base colour exactly.
    let mut rng = RandomSource::from_seed(3);
    for _ in 0..20 {
        let e = get_element(ElementType::Air, &mut rng);
        assert_eq!(e.render_color.r, e.color.r);
        assert_eq!(e.render_color.g, e.color.g);
        assert_eq!(e.render_color.b, e.color.b);
    }
}

#[test]
fn repeated_variance_keeps_the_bound() {
    let mut rng = RandomSource::from_seed(11);
    let mut e = get_element(ElementType::Water, &mut rng);
    for _ in 0..500 {
        e.vary_color(&mut rng);
        let m = e.color.max_dist as i64;
        assert!(dist_sq(&e) <= m * m);
    }
}

#[test]
fn render_packs_rounded_channels() {
    let t = template_of(ElementType::Air);
    // base colour 80000/180000/210000 rounds to bytes 80/180/210
    assert_eq!(t.render(), (80u32 << 16) | (180u32 << 8) | 210u32);
    let s = template_of(ElementType::Stone);
    assert_eq!(s.render(), (40u32 << 16) | (40u32 << 8) | 40u32);
}

#[test]
fn element_new_sets_fields() {
    let e = Element::new(
        "Oil",
        ElementType::Water,
        vec![Attribute::CanFall, Attribute::Liquid],
        ElementColor::new(1000, 2000, 3000, 0, 0, 0, 0, 5000),
        0,
        0,
        80,
    );
    assert_eq!(e.name, "Oil");
    assert_eq!(e.id, ElementType::Water);
    assert!(e.attributes.can_fall);
    assert!(e.attributes.liquid);
    assert!(!e.attributes.solid);
    assert_eq!(e.render_color.r, 1000);
    assert_eq!(e.density, 80);
    assert!(e.falling);
}

#[test]
fn default_color_is_black_with_a_wide_drift_radius() {
    let c = ElementColor::default();
    assert_eq!((c.r, c.g, c.b), (0, 0, 0));
    assert_eq!((c.rv, c.gv, c.bv, c.dv), (0, 0, 0, 0));
    assert_eq!(c.max_dist, 1275000);
}

#[test]
fn attribute_list_first_parameterised_tag_wins() {
    let set = AttributeSet::of_list(&vec![
        Attribute::CanEvaporate(ElementType::Steam),
        Attribute::CanEvaporate(ElementType::Air),
        Attribute::Sparkle,
    ]);
    assert_eq!(set.evaporate, Some(ElementType::Steam));
    assert!(set.sparkle);
    assert_eq!(set.condensate, None);
}

#[test]
fn catalog_templates_match_the_data_model() {
    let w = template_of(ElementType::Water);
    assert!(w.attributes.can_fall);
    assert!(w.attributes.liquid);
    assert!(w.attributes.sparkle);
    assert_eq!(w.attributes.evaporate, Some(ElementType::Steam));
    assert_eq!(w.density, 100);

    let s = template_of(ElementType::Steam);
    assert!(s.attributes.gas);
    assert_eq!(s.attributes.condensate, Some(ElementType::Water));
    assert_eq!(s.density, 8);

    let st = template_of(ElementType::Stone);
    assert!(st.attributes.immovable);
    assert!(st.attributes.solid);
    assert!(!st.attributes.can_fall);

    let r = template_of(ElementType::Robustium);
    assert_eq!(r.attributes.pillar, Some(80));
    assert_eq!(template_of(ElementType::Metal).density, 780);
}
