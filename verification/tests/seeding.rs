//! Tests for the model store, the seeding run and relationship generation.

use db_manager::links::sample_distinct;
use db_manager::run::run_seed;
use db_manager::store::{SeedError, Store};

fn lines(items: &[&str]) -> Vec<String> {
    items.iter().map(|s| s.to_string()).collect()
}

fn food_line_20(name: &str) -> String {
    let mut line = String::from(name);
    line.push_str(";250");
    for _ in 0..14 {
        line.push_str(";1.5");
    }
    for _ in 0..4 {
        line.push_str(";true");
    }
    line
}

fn links_for(store: &Store, food_id: i64) -> Vec<i64> {
    store
        .food_ingredients
        .iter()
        .filter(|l| l.food_id == food_id)
        .map(|l| l.ingredient_id)
        .collect()
}

#[test]
fn restaurant_insert_is_idempotent() {
    let mut store = Store::new();
    store.insert_restaurant("Cafe");
    store.insert_restaurant("Cafe");
    assert_eq!(store.restaurants.len(), 1);
    assert_eq!(store.restaurants[0].id, 1);
    assert_eq!(store.restaurants[0].name, "Cafe");
    store.insert_restaurant("Other");
    assert_eq!(store.restaurants.len(), 2);
    assert_eq!(store.restaurants[1].id, 2);
}

#[test]
fn ingredient_insert_is_idempotent() {
    let mut store = Store::new();
    store.insert_ingredient("Salt", "white", 0);
    store.insert_ingredient("Salt", "other text", 5);
    assert_eq!(store.ingredients.len(), 1);
    assert_eq!(store.ingredients[0].description, "white");
    assert_eq!(store.ingredients[0].hazard_level, 0);
}

#[test]
fn food_insert_without_restaurants_fails() {
    let mut store = Store::new();
    let res = store.insert_food(None, "Bread", "{}", false, false, false, false, 0);
    assert_eq!(res, Err(SeedError::EmptyPrerequisiteSet));
    assert_eq!(store.foods.len(), 0);
}

#[test]
fn food_insert_with_unknown_reference_fails() {
    let mut store = Store::new();
    store.insert_restaurant("Cafe");
    let res = store.insert_food(Some(9), "Bread", "{}", false, false, false, false, 0);
    assert_eq!(res, Err(SeedError::UnknownRestaurant));
    assert_eq!(store.foods.len(), 0);
    let ok = store.insert_food(Some(1), "Bread", "{}", false, false, false, false, 0);
    assert_eq!(ok, Ok(1));
    assert_eq!(store.foods.len(), 1);
    assert_eq!(store.foods[0].restaurant_id, 1);
}

#[test]
fn food_insert_resolves_a_stored_restaurant() {
    let mut store = Store::new();
    store.insert_restaurant("A");
    store.insert_restaurant("B");
    let res = store.insert_food(None, "Bread", "{}", true, false, true, false, 1);
    assert_eq!(res, Ok(2));
    assert_eq!(store.foods[0].restaurant_id, 2);
    // idempotent by name: a second insert adds no row
    let res2 = store.insert_food(None, "Bread", "{}", true, false, true, false, 0);
    assert_eq!(res2, Ok(1));
    assert_eq!(store.foods.len(), 1);
}

#[test]
fn junction_insert_is_idempotent_by_pair() {
    let mut store = Store::new();
    store.insert_restaurant("A");
    store.insert_food(None, "Bread", "{}", false, false, false, false, 0).unwrap();
    store.insert_ingredient("Salt", "white", 0);
    store.insert_food_ingredient(1, 1);
    store.insert_food_ingredient(1, 1);
    assert_eq!(store.food_ingredients.len(), 1);
}

#[test]
fn relations_stage_needs_both_id_sets() {
    let mut store = Store::new();
    store.insert_restaurant("A");
    store.insert_food(None, "Bread", "{}", false, false, false, false, 0).unwrap();
    let res = store.create_random_food_ingredient_relations();
    assert_eq!(res, Err(SeedError::EmptyPrerequisiteSet));
    assert_eq!(store.food_ingredients.len(), 0);
}

#[test]
fn every_food_gets_one_to_three_distinct_ingredients() {
    let mut store = Store::new();
    store.insert_restaurant("A");
    for name in ["Bread", "Jam", "Soup", "Stew"] {
        store.insert_food(None, name, "{}", false, false, false, false, 0).unwrap();
    }
    for name in ["Salt", "Flour", "Water", "Yeast", "Sugar"] {
        store.insert_ingredient(name, "", 0);
    }
    let res = store.create_random_food_ingredient_relations();
    assert_eq!(res, Ok(()));
    for food in &store.foods {
        let mut linked = links_for(&store, food.id);
        let n = linked.len();
        assert!(1 <= n && n <= 3, "food {} has {} links", food.id, n);
        linked.sort();
        linked.dedup();
        assert_eq!(linked.len(), n, "links are distinct");
        for ingredient_id in linked {
            assert!(store.ingredients.iter().any(|g| g.id == ingredient_id));
        }
    }
}

#[test]
fn small_ingredient_pool_bounds_the_links() {
    for round in 0..20 {
        let mut s = Store::new();
        s.insert_restaurant("A");
        s.insert_food(None, "Bread", "{}", false, false, false, false, 0).unwrap();
        s.insert_ingredient("Salt", "", 0);
        s.insert_ingredient("Flour", "", 0);
        let res = s.create_random_food_ingredient_relations();
        assert_eq!(res, Ok(()), "round {}", round);
        let n = links_for(&s, 1).len();
        assert!(1 <= n && n <= 2, "pool of two bounds the links, got {}", n);
    }
}

#[test]
fn sampling_is_distinct_and_bounded() {
    let pool: Vec<i64> = vec![10, 20, 30, 40, 50];
    for _ in 0..20 {
        let mut got = sample_distinct(&pool, 3);
        assert_eq!(got.len(), 3);
        got.sort();
        got.dedup();
        assert_eq!(got.len(), 3);
        let all = sample_distinct(&pool, 9);
        assert_eq!(all.len(), 5);
    }
}

#[test]
fn end_to_end_scenario() {
    let restaurant_lines = lines(&["Cafe A", "Cafe B"]);
    let ingredient_lines = lines(&[
        "name;description;hazard_level",
        "Salt;white crystal;0",
        "Chili;hot;2",
    ]);
    let good_row = food_line_20("Bread");
    let food_lines = lines(&["header", &good_row, "Bad;row;too;short"]);
    let mut store = Store::new();
    let report = run_seed(&mut store, &restaurant_lines, &ingredient_lines, &food_lines, false);
    assert_eq!(store.restaurants.len(), 2);
    assert_eq!(store.ingredients.len(), 2);
    assert_eq!(store.foods.len(), 1);
    let food = &store.foods[0];
    assert_eq!(food.name, "Bread");
    assert!(food.restaurant_id == 1 || food.restaurant_id == 2);
    assert_eq!(report.skipped_food_lines, vec![2usize]);
    assert_eq!(report.skipped_ingredient_lines.len(), 0);
    assert_eq!(report.failed_food_lines.len(), 0);
    assert!(report.relations_generated);
    let n = links_for(&store, food.id).len();
    assert!(1 <= n && n <= 2, "one food linked within the pool of two, got {}", n);
}

#[test]
fn rerunning_the_seed_adds_no_duplicate_rows() {
    let restaurant_lines = lines(&["Cafe A", "", "Cafe B"]);
    let ingredient_lines = lines(&["header", "Salt;white;0", "Chili;hot;2"]);
    let food_lines = lines(&["header", &food_line_20("Bread"), &food_line_20("Jam")]);
    let mut store = Store::new();
    run_seed(&mut store, &restaurant_lines, &ingredient_lines, &food_lines, false);
    assert_eq!(store.restaurants.len(), 2);
    assert_eq!(store.ingredients.len(), 2);
    assert_eq!(store.foods.len(), 2);
    run_seed(&mut store, &restaurant_lines, &ingredient_lines, &food_lines, false);
    assert_eq!(store.restaurants.len(), 2, "no duplicate restaurants by name");
    assert_eq!(store.ingredients.len(), 2, "no duplicate ingredients by name");
    assert_eq!(store.foods.len(), 2, "no duplicate foods by name");
    // junction pairs stay unique even across runs
    let mut pairs: Vec<(i64, i64)> = store
        .food_ingredients
        .iter()
        .map(|l| (l.food_id, l.ingredient_id))
        .collect();
    let before = pairs.len();
    pairs.sort();
    pairs.dedup();
    assert_eq!(pairs.len(), before);
}

#[test]
fn blank_restaurant_lines_are_ignored() {
    let mut store = Store::new();
    run_seed(&mut store, &lines(&["", "  ", "Cafe"]), &lines(&[]), &lines(&[]), false);
    assert_eq!(store.restaurants.len(), 1);
    assert_eq!(store.restaurants[0].name, "Cafe");
}
