use falling_sand::elements::ElementType;
use falling_sand::reactions::{check_reaction, ChemicalReaction, ReactionKey};

#[test]
fn reaction_key_sorts_its_pair() {
    let k1 = ReactionKey::new(ElementType::Stone, ElementType::Sand);
    let k2 = ReactionKey::new(ElementType::Sand, ElementType::Stone);
    assert_eq!(k1, k2);
    assert_eq!(k1.0, ElementType::Sand);
    assert_eq!(k1.1, ElementType::Stone);
}

#[test]
fn sand_and_stone_react_to_bendium_in_either_order() {
    let r1 = check_reaction(&ElementType::Sand, &ElementType::Stone);
    assert_eq!(r1, Some(ChemicalReaction { result: ElementType::Bendium }));
    let r2 = check_reaction(&ElementType::Stone, &ElementType::Sand);
    assert_eq!(r2, Some(ChemicalReaction { result: ElementType::Bendium }));
}

#[test]
fn other_pairs_are_inert() {
    assert_eq!(check_reaction(&ElementType::Sand, &ElementType::Sand), None);
    assert_eq!(check_reaction(&ElementType::Water, &ElementType::Stone), None);
    assert_eq!(check_reaction(&ElementType::Air, &ElementType::Air), None);
    assert_eq!(check_reaction(&ElementType::Bendium, &ElementType::Air), None);
    assert_eq!(check_reaction(&ElementType::Stone, &ElementType::Stone), None);
}
