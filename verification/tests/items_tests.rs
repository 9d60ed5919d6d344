use autobattler::choices::{build_weighted_pool, set_item_choices};
use autobattler::items::{
    init_items, is_eligible, select_item, to_roman, ItemEffect, ItemRarity,
};

#[test]
fn rarity_weights() {
    assert_eq!(ItemRarity::Common.weight(), 6);
    assert_eq!(ItemRarity::Rare.weight(), 4);
    assert_eq!(ItemRarity::Epic.weight(), 2);
    assert_eq!(ItemRarity::Legendary.weight(), 1);
}

#[test]
fn initial_catalogue_contents() {
    let items = init_items();
    assert_eq!(items.len(), 4);
    assert_eq!(items[0].name, "Coffee");
    assert_eq!(items[0].effect, ItemEffect::AddMovementSpeed(25));
    assert_eq!(items[0].level.max_level, 3);
    assert_eq!(items[1].name, "Knight Squad");
    assert_eq!(items[1].copies.0, 6);
    assert_eq!(items[1].level.max_level, 1);
    assert_eq!(items[2].name, "Column");
    assert_eq!(items[2].copies.0, 2);
    assert_eq!(items[3].name, "Row");
    assert_eq!(items[3].copies.0, 1);
}

#[test]
fn knight_squad_retires_after_six_selections() {
    // Six max copies, max level one: each selection spends a copy, and
    // after the sixth the item leaves every future reward pool.
    let mut items = init_items();
    for round in 0..6 {
        assert!(is_eligible(&items[1], 3));
        assert_eq!(items[1].copies.0, 6 - round);
        select_item(&mut items[1]);
    }
    assert_eq!(items[1].copies.0, 0);
    assert!(!is_eligible(&items[1], 3));
    let pool = build_weighted_pool(&items, 3);
    assert!(!pool.contains(&1));
}

#[test]
fn levels_below_the_cap_keep_their_copies() {
    // Coffee has one copy and three levels: the first two selections raise
    // the level without spending the copy; the third spends it.
    let mut items = init_items();
    select_item(&mut items[0]);
    assert_eq!((items[0].level.level, items[0].copies.0), (1, 1));
    select_item(&mut items[0]);
    assert_eq!((items[0].level.level, items[0].copies.0), (2, 1));
    select_item(&mut items[0]);
    assert_eq!((items[0].level.level, items[0].copies.0), (3, 0));
}

#[test]
fn open_slot_requirement_gates_eligibility() {
    let items = init_items();
    // The knight squad needs an open slot.
    assert!(is_eligible(&items[1], 1));
    assert!(!is_eligible(&items[1], 0));
    // Coffee has no requirement.
    assert!(is_eligible(&items[0], 0));
}

#[test]
fn weighted_pool_repeats_items_by_rarity() {
    let items = init_items();
    let pool = build_weighted_pool(&items, 3);
    // Rare 4 + Common 6 + Epic 2 + Rare 4.
    assert_eq!(pool.len(), 16);
    assert_eq!(pool.iter().filter(|&&i| i == 0).count(), 4);
    assert_eq!(pool.iter().filter(|&&i| i == 1).count(), 6);
    assert_eq!(pool.iter().filter(|&&i| i == 2).count(), 2);
    assert_eq!(pool.iter().filter(|&&i| i == 3).count(), 4);
}

#[test]
fn choices_draw_only_eligible_items() {
    let items = init_items();
    let choices = set_item_choices(&items, 0, 3).expect("pool is not empty");
    assert_eq!(choices.len(), 3);
    for c in &choices {
        // With no open slot the knight squad is out of the pool.
        assert_ne!(c.item, 1);
        assert!(c.item < items.len());
    }
}

#[test]
fn exhausted_pool_yields_no_offering() {
    let items: Vec<autobattler::items::Item> = Vec::new();
    assert!(set_item_choices(&items, 3, 3).is_none());

    let mut spent = init_items();
    for i in 0..spent.len() {
        while spent[i].copies.0 > 0 {
            select_item(&mut spent[i]);
        }
    }
    assert!(set_item_choices(&spent, 3, 3).is_none());
}

#[test]
fn roman_numerals_for_item_levels() {
    assert_eq!(to_roman(1), "I");
    assert_eq!(to_roman(2), "II");
    assert_eq!(to_roman(3), "III");
    assert_eq!(to_roman(4), "IV");
    assert_eq!(to_roman(5), "V");
    assert_eq!(to_roman(0), "");
    assert_eq!(to_roman(6), "");
}
