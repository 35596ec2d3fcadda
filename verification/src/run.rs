//! The seeding run: restaurants from a name-per-line list, ingredients and
//! foods from delimited rows (the header at index zero is always skipped),
//! then random food-ingredient relationships. A failure on a single line is
//! recovered locally: the line is reported and skipped, the run continues.

use vstd::prelude::*;

use crate::links::{lemma_links_of_empty, links_of, random_below};
use crate::records::{food_field_count, parse_food_row, parse_ingredient_row};
use crate::store::Store;
use crate::text::{spec_coerce_ref, split_fields, trim, trimmed};

verus! {

/// What a run reports besides the store's new state: the skipped input
/// lines, by index, and whether the relationship stage ran.
pub struct SeedReport {
    /// Ingredient lines with a field count other than three.
    pub skipped_ingredient_lines: Vec<usize>,
    /// Food lines with the wrong field count for the chosen mode.
    pub skipped_food_lines: Vec<usize>,
    /// Food lines that parsed but could not be written: no restaurant is
    /// stored yet, or an explicit reference names none.
    pub failed_food_lines: Vec<usize>,
    /// Whether the relationship stage ran (both id sets were non-empty).
    pub relations_generated: bool,
}

/// Name and id sets depend only on the table they read, not on the store
/// value around it.
proof fn lemma_same_restaurants(a: Store, b: Store)
    requires
        a.restaurants == b.restaurants,
    ensures
        forall|n: Seq<char>| a.has_restaurant_name(n) == b.has_restaurant_name(n),
        forall|id: i64| a.has_restaurant_id(id) == b.has_restaurant_id(id),
{
    assert forall|n: Seq<char>| a.has_restaurant_name(n) == b.has_restaurant_name(n) by {
        if a.has_restaurant_name(n) {
            let w = choose|w: int|
                0 <= w < a.restaurants@.len() && (#[trigger] a.restaurants@[w]).name@ == n;
            assert(b.restaurants@[w].name@ == n);
        }
        if b.has_restaurant_name(n) {
            let w = choose|w: int|
                0 <= w < b.restaurants@.len() && (#[trigger] b.restaurants@[w]).name@ == n;
            assert(a.restaurants@[w].name@ == n);
        }
    }
    assert forall|id: i64| a.has_restaurant_id(id) == b.has_restaurant_id(id) by {
        if a.has_restaurant_id(id) {
            let w = choose|w: int|
                0 <= w < a.restaurants@.len() && (#[trigger] a.restaurants@[w]).id == id;
            assert(b.restaurants@[w].id == id);
        }
        if b.has_restaurant_id(id) {
            let w = choose|w: int|
                0 <= w < b.restaurants@.len() && (#[trigger] b.restaurants@[w]).id == id;
            assert(a.restaurants@[w].id == id);
        }
    }
}

/// As above, for the ingredient table.
proof fn lemma_same_ingredients(a: Store, b: Store)
    requires
        a.ingredients == b.ingredients,
    ensures
        forall|n: Seq<char>| a.has_ingredient_name(n) == b.has_ingredient_name(n),
{
    assert forall|n: Seq<char>| a.has_ingredient_name(n) == b.has_ingredient_name(n) by {
        if a.has_ingredient_name(n) {
            let w = choose|w: int|
                0 <= w < a.ingredients@.len() && (#[trigger] a.ingredients@[w]).name@ == n;
            assert(b.ingredients@[w].name@ == n);
        }
        if b.has_ingredient_name(n) {
            let w = choose|w: int|
                0 <= w < b.ingredients@.len() && (#[trigger] b.ingredients@[w]).name@ == n;
            assert(a.ingredients@[w].name@ == n);
        }
    }
}

/// Seeds restaurants: one name per line, lines that are blank after
/// trimming are ignored, and inserts are idempotent by name.
pub fn seed_restaurants(store: &mut Store, lines: &Vec<String>)
    requires
        old(store).wf(),
        old(store).restaurants@.len() + lines@.len() + 1 < i64::MAX,
    ensures
        final(store).wf(),
        final(store).ingredients == old(store).ingredients,
        final(store).foods == old(store).foods,
        final(store).food_ingredients == old(store).food_ingredients,
        final(store).restaurants@.len() <= old(store).restaurants@.len() + lines@.len(),
        final(store).restaurants@.take(old(store).restaurants@.len() as int) == old(store).restaurants@,
        forall|i: int|
            0 <= i < lines@.len() && trimmed((#[trigger] lines@[i])@).len() > 0 ==> final(store).has_restaurant_name(lines@[i]@),
        (forall|i: int|
            0 <= i < lines@.len() ==> trimmed((#[trigger] lines@[i])@).len() == 0 || old(store).has_restaurant_name(lines@[i]@)) ==> final(store).restaurants == old(store).restaurants,
{
    let n = lines.len();
    let mut i: usize = 0;
    while i < n
        invariant
            i <= n,
            n == lines@.len(),
            old(store).wf(),
            old(store).restaurants@.len() + lines@.len() + 1 < i64::MAX,
            store.wf(),
            store.ingredients == old(store).ingredients,
            store.foods == old(store).foods,
            store.food_ingredients == old(store).food_ingredients,
            store.restaurants@.len() <= old(store).restaurants@.len() + i,
            store.restaurants@.len() >= old(store).restaurants@.len(),
            store.restaurants@.take(old(store).restaurants@.len() as int) == old(store).restaurants@,
            forall|m: int|
                0 <= m < i && trimmed((#[trigger] lines@[m])@).len() > 0
                    ==> store.has_restaurant_name(lines@[m]@),
            (forall|m: int|
                0 <= m < lines@.len() ==> trimmed((#[trigger] lines@[m])@).len() == 0 || old(store).has_restaurant_name(lines@[m]@)) ==> store.restaurants == old(store).restaurants,
        decreases n - i,
    {
        let line = &lines[i];
        let t = trim(line.as_str());
        if !t.is_empty() {
            let ghost prev = *store;
            store.insert_restaurant(line.as_str());
            proof {
                let oldlen = old(store).restaurants@.len() as int;
                assert(store.restaurants@.take(oldlen) =~= prev.restaurants@.take(oldlen));
                assert forall|m: int|
                    0 <= m < i + 1 && trimmed((#[trigger] lines@[m])@).len() > 0
                        implies store.has_restaurant_name(lines@[m]@) by {
                    if m < i {
                        let w = choose|w: int|
                            0 <= w < prev.restaurants@.len() && (#[trigger] prev.restaurants@[w]).name@
                                == lines@[m]@;
                        if store.restaurants == prev.restaurants {
                            assert(store.restaurants@[w].name@ == lines@[m]@);
                        } else {
                            assert(store.restaurants@.take(prev.restaurants@.len() as int)[w]
                                == prev.restaurants@[w]);
                            assert(store.restaurants@[w].name@ == lines@[m]@);
                        }
                    }
                }
                if (forall|m: int|
                    0 <= m < lines@.len() ==> trimmed((#[trigger] lines@[m])@).len() == 0 || old(store).has_restaurant_name(lines@[m]@)) {
                    assert(prev.restaurants == old(store).restaurants);
                    assert(old(store).has_restaurant_name(lines@[i as int]@));
                    let w = choose|w: int|
                        0 <= w < old(store).restaurants@.len() && (#[trigger] old(store).restaurants@[w]).name@ == lines@[i as int]@;
                    assert(prev.restaurants@[w].name@ == lines@[i as int]@);
                    assert(prev.has_restaurant_name(lines@[i as int]@));
                    assert(store.restaurants == prev.restaurants);
                }
            }
        }
        i += 1;
    }
}

/// Seeds ingredients from delimited rows. The header line at index zero is
/// always skipped; a row with a field count other than three is reported in
/// the returned list and skipped; inserts are idempotent by name.
pub fn seed_ingredients(store: &mut Store, lines: &Vec<String>) -> (skipped: Vec<usize>)
    requires
        old(store).wf(),
        old(store).ingredients@.len() + lines@.len() + 1 < i64::MAX,
    ensures
        final(store).wf(),
        final(store).restaurants == old(store).restaurants,
        final(store).foods == old(store).foods,
        final(store).food_ingredients == old(store).food_ingredients,
        final(store).ingredients@.len() <= old(store).ingredients@.len() + lines@.len(),
        final(store).ingredients@.take(old(store).ingredients@.len() as int) == old(store).ingredients@,
        forall|m: int|
            0 <= m < skipped@.len() ==> 1 <= (#[trigger] skipped@[m]) as int && (skipped@[m] as int) < lines@.len(),
        forall|i: int|
            1 <= i < lines@.len() ==> (skipped@.contains(i as usize) <==> split_fields(
                (#[trigger] lines@[i])@,
            ).len() != 3),
        forall|i: int|
            1 <= i < lines@.len() && split_fields((#[trigger] lines@[i])@).len() == 3 ==> final(store).has_ingredient_name(trimmed(split_fields(lines@[i]@)[0])),
        (forall|i: int|
            1 <= i < lines@.len() ==> split_fields((#[trigger] lines@[i])@).len() != 3 || old(store).has_ingredient_name(trimmed(split_fields(lines@[i]@)[0]))) ==> final(store).ingredients == old(store).ingredients,
{
    broadcast use vstd::seq_lib::lemma_seq_contains_after_push;

    let n = lines.len();
    let mut skipped: Vec<usize> = Vec::new();
    let mut i: usize = 1;
    while i < n
        invariant
            1 <= i && (i <= n || i == 1),
            n == lines@.len(),
            old(store).wf(),
            old(store).ingredients@.len() + lines@.len() + 1 < i64::MAX,
            store.wf(),
            store.restaurants == old(store).restaurants,
            store.foods == old(store).foods,
            store.food_ingredients == old(store).food_ingredients,
            store.ingredients@.len() + 1 <= old(store).ingredients@.len() + i,
            store.ingredients@.len() >= old(store).ingredients@.len(),
            store.ingredients@.take(old(store).ingredients@.len() as int) == old(store).ingredients@,
            forall|m: int|
                0 <= m < skipped@.len() ==> 1 <= (#[trigger] skipped@[m]) as int && (skipped@[m] as int) < i as int,
            forall|i2: int|
                1 <= i2 < i ==> (skipped@.contains(i2 as usize) <==> split_fields(
                    (#[trigger] lines@[i2])@,
                ).len() != 3),
            forall|i2: int|
                1 <= i2 < i && split_fields((#[trigger] lines@[i2])@).len() == 3
                    ==> store.has_ingredient_name(trimmed(split_fields(lines@[i2]@)[0])),
            (forall|i2: int|
                1 <= i2 < lines@.len() ==> split_fields((#[trigger] lines@[i2])@).len() != 3 || old(store).has_ingredient_name(trimmed(split_fields(lines@[i2]@)[0]))) ==> store.ingredients
                == old(store).ingredients,
        decreases n - i,
    {
        let line = &lines[i];
        match parse_ingredient_row(line.as_str()) {
            Some(rec) => {
                let ghost prev = *store;
                store.insert_ingredient(rec.name.as_str(), rec.description.as_str(), rec.hazard_level);
                proof {
                    let oldlen = old(store).ingredients@.len() as int;
                    assert(store.ingredients@.take(oldlen) =~= prev.ingredients@.take(oldlen));
                    assert forall|i2: int|
                        1 <= i2 < i + 1 && split_fields((#[trigger] lines@[i2])@).len() == 3
                            implies store.has_ingredient_name(
                        trimmed(split_fields(lines@[i2]@)[0]),
                    ) by {
                        if i2 < i {
                            let nm = trimmed(split_fields(lines@[i2]@)[0]);
                            let w = choose|w: int|
                                0 <= w < prev.ingredients@.len() && (
                                #[trigger] prev.ingredients@[w]).name@ == nm;
                            if store.ingredients == prev.ingredients {
                                assert(store.ingredients@[w].name@ == nm);
                            } else {
                                assert(store.ingredients@.take(prev.ingredients@.len() as int)[w]
                                    == prev.ingredients@[w]);
                                assert(store.ingredients@[w].name@ == nm);
                            }
                        } else {
                            assert(rec.name@ == trimmed(split_fields(lines@[i as int]@)[0]));
                        }
                    }
                    if (forall|i2: int|
                        1 <= i2 < lines@.len() ==> split_fields((#[trigger] lines@[i2])@).len() != 3
                            || old(store).has_ingredient_name(
                            trimmed(split_fields(lines@[i2]@)[0]),
                        )) {
                        assert(prev.ingredients == old(store).ingredients);
                        let nm = trimmed(split_fields(lines@[i as int]@)[0]);
                        assert(old(store).has_ingredient_name(nm));
                        let w = choose|w: int|
                            0 <= w < old(store).ingredients@.len() && (#[trigger] old(store).ingredients@[w]).name@ == nm;
                        assert(prev.ingredients@[w].name@ == nm);
                        assert(prev.has_ingredient_name(nm));
                        assert(store.ingredients == prev.ingredients);
                    }
                }
            },
            None => {
                let ghost pre = skipped@;
                skipped.push(i);
                proof {
                    assert forall|i2: int| 1 <= i2 < i + 1 implies (skipped@.contains(i2 as usize)
                        <==> split_fields((#[trigger] lines@[i2])@).len() != 3) by {
                        vstd::seq_lib::lemma_seq_contains_after_push(pre, i, i2 as usize);
                        if i2 < i {
                            assert((i2 as usize) as int == i2);
                        } else {
                            assert(i2 as usize == i);
                            assert(skipped@.contains(i as usize));
                        }
                    }
                }
            },
        }
        proof {
            if split_fields(lines@[i as int]@).len() == 3 {
                if skipped@.contains(i as usize) {
                    let m = choose|m: int|
                        0 <= m < skipped@.len() && (#[trigger] skipped@[m]) == i as usize;
                    assert((skipped@[m] as int) < i as int);
                    assert(false);
                }
            }
        }
        i += 1;
    }
    skipped
}

/// Seeds foods from delimited rows. The header line at index zero is always
/// skipped; a row with the wrong field count goes to the first returned
/// list; a row that parsed but could not be written (no restaurant stored,
/// or an explicit reference naming none) goes to the second. Without an
/// explicit reference a restaurant is drawn uniformly at random; inserts
/// are idempotent by name.
pub fn seed_foods(store: &mut Store, lines: &Vec<String>, with_restaurant_ref: bool) -> (r: (
    Vec<usize>,
    Vec<usize>,
))
    requires
        old(store).wf(),
        old(store).foods@.len() + lines@.len() + 1 < i64::MAX,
    ensures
        final(store).wf(),
        final(store).restaurants == old(store).restaurants,
        final(store).ingredients == old(store).ingredients,
        final(store).food_ingredients == old(store).food_ingredients,
        final(store).foods@.len() <= old(store).foods@.len() + lines@.len(),
        final(store).foods@.take(old(store).foods@.len() as int) == old(store).foods@,
        forall|m: int| 0 <= m < r.0@.len() ==> 1 <= (#[trigger] r.0@[m]) as int && (r.0@[m] as int) < lines@.len(),
        forall|i: int|
            1 <= i < lines@.len() ==> (r.0@.contains(i as usize) <==> split_fields(
                (#[trigger] lines@[i])@,
            ).len() != food_field_count(with_restaurant_ref)),
        forall|m: int| 0 <= m < r.1@.len() ==> 1 <= (#[trigger] r.1@[m]) as int && (r.1@[m] as int) < lines@.len(),
        !with_restaurant_ref && old(store).restaurants@.len() > 0 ==> r.1@.len() == 0,
        forall|i: int|
            1 <= i < lines@.len() && split_fields((#[trigger] lines@[i])@).len()
                == food_field_count(with_restaurant_ref) ==> {
                let fields = split_fields(lines@[i]@);
                &&& !with_restaurant_ref && old(store).restaurants@.len() > 0 ==> final(store).has_food_name(trimmed(fields[0]))
                &&& with_restaurant_ref && old(store).has_restaurant_id(
                    spec_coerce_ref(trimmed(fields[0])) as i64,
                ) ==> final(store).has_food_name(trimmed(fields[1]))
            },
{
    broadcast use vstd::seq_lib::lemma_seq_contains_after_push;

    let n = lines.len();
    let mut skipped: Vec<usize> = Vec::new();
    let mut failed: Vec<usize> = Vec::new();
    let mut i: usize = 1;
    while i < n
        invariant
            1 <= i && (i <= n || i == 1),
            n == lines@.len(),
            old(store).wf(),
            old(store).foods@.len() + lines@.len() + 1 < i64::MAX,
            store.wf(),
            store.restaurants == old(store).restaurants,
            store.ingredients == old(store).ingredients,
            store.food_ingredients == old(store).food_ingredients,
            store.foods@.len() + 1 <= old(store).foods@.len() + i,
            store.foods@.len() >= old(store).foods@.len(),
            store.foods@.take(old(store).foods@.len() as int) == old(store).foods@,
            forall|m: int| 0 <= m < skipped@.len() ==> 1 <= (#[trigger] skipped@[m]) as int && (skipped@[m] as int) < i as int,
            forall|i2: int|
                1 <= i2 < i ==> (skipped@.contains(i2 as usize) <==> split_fields(
                    (#[trigger] lines@[i2])@,
                ).len() != food_field_count(with_restaurant_ref)),
            forall|m: int| 0 <= m < failed@.len() ==> 1 <= (#[trigger] failed@[m]) as int && (failed@[m] as int) < i as int,
            !with_restaurant_ref && old(store).restaurants@.len() > 0 ==> failed@.len() == 0,
            forall|i2: int|
                1 <= i2 < i && split_fields((#[trigger] lines@[i2])@).len()
                    == food_field_count(with_restaurant_ref) ==> {
                    let fields = split_fields(lines@[i2]@);
                    &&& !with_restaurant_ref && old(store).restaurants@.len() > 0
                        ==> store.has_food_name(trimmed(fields[0]))
                    &&& with_restaurant_ref && old(store).has_restaurant_id(
                        spec_coerce_ref(trimmed(fields[0])) as i64,
                    ) ==> store.has_food_name(trimmed(fields[1]))
                },
        decreases n - i,
    {
        let line = &lines[i];
        match parse_food_row(line.as_str(), with_restaurant_ref) {
            Some(rec) => {
                let nrest = store.restaurants.len();
                let pick: usize = if nrest > 0 {
                    random_below(nrest)
                } else {
                    0
                };
                let ghost prev = *store;
                let outcome = store.insert_food(
                    rec.restaurant_ref,
                    rec.name.as_str(),
                    rec.macro_table.as_str(),
                    rec.is_organic,
                    rec.is_gluten_free,
                    rec.is_alcohol_free,
                    rec.is_lactose_free,
                    pick,
                );
                if outcome.is_err() {
                    failed.push(i);
                }
                proof {
                    let oldlen = old(store).foods@.len() as int;
                    assert(store.foods@.take(oldlen) =~= prev.foods@.take(oldlen));
                    lemma_same_restaurants(*old(store), prev);
                    assert forall|i2: int|
                        1 <= i2 < i + 1 && split_fields((#[trigger] lines@[i2])@).len()
                            == food_field_count(with_restaurant_ref) implies {
                            let fields = split_fields(lines@[i2]@);
                            &&& !with_restaurant_ref && old(store).restaurants@.len() > 0
                                ==> store.has_food_name(trimmed(fields[0]))
                            &&& with_restaurant_ref && old(store).has_restaurant_id(
                                spec_coerce_ref(trimmed(fields[0])) as i64,
                            ) ==> store.has_food_name(trimmed(fields[1]))
                        } by {
                        let fields = split_fields(lines@[i2]@);
                        if i2 < i {
                            let nm: Seq<char> = if with_restaurant_ref {
                                trimmed(fields[1])
                            } else {
                                trimmed(fields[0])
                            };
                            if prev.has_food_name(nm) {
                                let w = choose|w: int|
                                    0 <= w < prev.foods@.len() && (#[trigger] prev.foods@[w]).name@
                                        == nm;
                                if store.foods == prev.foods {
                                    assert(store.foods@[w].name@ == nm);
                                } else {
                                    assert(store.foods@.take(prev.foods@.len() as int)[w]
                                        == prev.foods@[w]);
                                    assert(store.foods@[w].name@ == nm);
                                }
                            }
                        }
                    }
                }
            },
            None => {
                let ghost pre = skipped@;
                skipped.push(i);
                proof {
                    assert forall|i2: int| 1 <= i2 < i + 1 implies (skipped@.contains(i2 as usize)
                        <==> split_fields((#[trigger] lines@[i2])@).len() != food_field_count(
                        with_restaurant_ref,
                    )) by {
                        vstd::seq_lib::lemma_seq_contains_after_push(pre, i, i2 as usize);
                        if i2 < i {
                            assert((i2 as usize) as int == i2);
                        } else {
                            assert(i2 as usize == i);
                            assert(skipped@.contains(i as usize));
                        }
                    }
                }
            },
        }
        proof {
            if split_fields(lines@[i as int]@).len() == food_field_count(with_restaurant_ref) {
                if skipped@.contains(i as usize) {
                    let m = choose|m: int|
                        0 <= m < skipped@.len() && (#[trigger] skipped@[m]) == i as usize;
                    assert((skipped@[m] as int) < i as int);
                    assert(false);
                }
            }
        }
        i += 1;
    }
    (skipped, failed)
}

/// One complete seeding run over the three inputs: restaurants, then
/// ingredients, then foods, then random food-ingredient relationships.
/// Re-running over the same inputs leaves the restaurant and ingredient
/// tables unchanged (idempotence by natural key).
pub fn run_seed(
    store: &mut Store,
    restaurant_lines: &Vec<String>,
    ingredient_lines: &Vec<String>,
    food_lines: &Vec<String>,
    foods_have_restaurant_ref: bool,
) -> (report: SeedReport)
    requires
        old(store).wf(),
        old(store).restaurants@.len() + restaurant_lines@.len() + 1 < i64::MAX,
        old(store).ingredients@.len() + ingredient_lines@.len() + 1 < i64::MAX,
        old(store).foods@.len() + food_lines@.len() + 1 < i64::MAX,
    ensures
        final(store).wf(),
        forall|i: int|
            0 <= i < restaurant_lines@.len() && trimmed((#[trigger] restaurant_lines@[i])@).len()
                > 0 ==> final(store).has_restaurant_name(restaurant_lines@[i]@),
        forall|i: int|
            1 <= i < ingredient_lines@.len() && split_fields(
                (#[trigger] ingredient_lines@[i])@,
            ).len() == 3 ==> final(store).has_ingredient_name(
                trimmed(split_fields(ingredient_lines@[i]@)[0]),
            ),
        forall|i: int|
            1 <= i < ingredient_lines@.len() ==> (report.skipped_ingredient_lines@.contains(
                i as usize,
            ) <==> split_fields((#[trigger] ingredient_lines@[i])@).len() != 3),
        forall|i: int|
            1 <= i < food_lines@.len() ==> (report.skipped_food_lines@.contains(i as usize)
                <==> split_fields((#[trigger] food_lines@[i])@).len() != food_field_count(
                foods_have_restaurant_ref,
            )),
        (forall|i: int|
            0 <= i < restaurant_lines@.len() ==> trimmed(
                (#[trigger] restaurant_lines@[i])@,
            ).len() == 0 || old(store).has_restaurant_name(restaurant_lines@[i]@)) && (forall|
            i: int,
        |
            1 <= i < ingredient_lines@.len() ==> split_fields(
                (#[trigger] ingredient_lines@[i])@,
            ).len() != 3 || old(store).has_ingredient_name(
                trimmed(split_fields(ingredient_lines@[i]@)[0]),
            )) ==> final(store).restaurants == old(store).restaurants && final(store).ingredients
            == old(store).ingredients,
        report.relations_generated <==> final(store).foods@.len() > 0 && final(store).ingredients@.len() > 0,
        old(store).food_ingredients@.len() == 0 && report.relations_generated ==> forall|i: int|
            0 <= i < final(store).foods@.len() ==> {
                let linked = links_of(
                    final(store).food_ingredients@,
                    (#[trigger] final(store).foods@[i]).id,
                );
                1 <= linked.len() <= 3 && linked.len() <= final(store).ingredients@.len()
            },
{
    seed_restaurants(store, restaurant_lines);
    let ghost s1 = *store;
    let ghost hyp_rest = forall|i: int|
        0 <= i < restaurant_lines@.len() ==> trimmed((#[trigger] restaurant_lines@[i])@).len() == 0
            || old(store).has_restaurant_name(restaurant_lines@[i]@);
    let ghost hyp_ing = forall|i: int|
        1 <= i < ingredient_lines@.len() ==> split_fields((#[trigger] ingredient_lines@[i])@).len()
            != 3 || old(store).has_ingredient_name(trimmed(split_fields(ingredient_lines@[i]@)[0]));
    proof {
        lemma_same_ingredients(*old(store), s1);
    }
    let skipped_ingredient_lines = seed_ingredients(store, ingredient_lines);
    let ghost s2 = *store;
    let food_result = seed_foods(store, food_lines, foods_have_restaurant_ref);
    let skipped_food_lines = food_result.0;
    let failed_food_lines = food_result.1;
    let ghost s3 = *store;
    let relations = store.create_random_food_ingredient_relations();
    let relations_generated = relations.is_ok();
    proof {
        let b = *store;
        if old(store).food_ingredients@.len() == 0 && relations is Ok {
            assert(s3.food_ingredients@.len() == 0);
            assert forall|i: int| 0 <= i < b.foods@.len() implies {
                let linked = links_of(b.food_ingredients@, (#[trigger] b.foods@[i]).id);
                1 <= linked.len() <= 3 && linked.len() <= b.ingredients@.len()
            } by {
                let fid = b.foods@[i].id;
                assert(s3.foods@[i].id == fid);
                lemma_links_of_empty(s3.food_ingredients@, fid);
            }
        }
        assert(b.restaurants == s1.restaurants);
        assert(b.ingredients == s2.ingredients);
        lemma_same_restaurants(s1, b);
        lemma_same_ingredients(s2, b);
        if hyp_rest && hyp_ing {
            assert(s1.restaurants == old(store).restaurants);
            assert(s2.ingredients == s1.ingredients);
            assert(s1.ingredients == old(store).ingredients);
        }
    }
    SeedReport {
        skipped_ingredient_lines,
        skipped_food_lines,
        failed_food_lines,
        relations_generated,
    }
}

} // verus!
