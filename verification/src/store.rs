//! An in-memory model of the relational store that seeding writes to:
//! four tables with store-assigned ids, natural-key uniqueness, and
//! idempotent insert operations. Persisting the final state to an actual
//! database is the surrounding binary's concern.

use vstd::prelude::*;

use crate::text::str_eq;

verus! {

/// A stored restaurant row; restaurant names are unique.
pub struct Restaurant {
    pub id: i64,
    pub name: String,
}

/// A stored ingredient row; ingredient names are unique.
pub struct Ingredient {
    pub id: i64,
    pub name: String,
    pub description: String,
    pub hazard_level: i32,
}

/// A stored food row; it references an existing restaurant and carries the
/// rendered nutrition document and four boolean flags.
pub struct Food {
    pub id: i64,
    pub restaurant_id: i64,
    pub name: String,
    pub macro_table: String,
    pub is_organic: bool,
    pub is_gluten_free: bool,
    pub is_alcohol_free: bool,
    pub is_lactose_free: bool,
}

/// A junction row linking a food to an ingredient; pairs are unique.
#[derive(Clone, Copy, PartialEq, Eq, Structural, Debug)]
pub struct FoodIngredient {
    pub food_id: i64,
    pub ingredient_id: i64,
}

/// Why an insert or a stage was skipped; neither aborts the run.
#[derive(Clone, Copy, PartialEq, Eq, Structural, Debug)]
pub enum SeedError {
    /// An operation needed at least one existing row and none exist.
    EmptyPrerequisiteSet,
    /// An explicit restaurant reference does not name a stored restaurant.
    UnknownRestaurant,
}

/// The model store: ids are assigned in insertion order starting at 1,
/// restaurant, ingredient and food names are natural keys, and junction
/// pairs are unique.
pub struct Store {
    pub restaurants: Vec<Restaurant>,
    pub ingredients: Vec<Ingredient>,
    pub foods: Vec<Food>,
    pub food_ingredients: Vec<FoodIngredient>,
}

impl Store {
    /// Well-formedness: ids follow insertion order, natural keys are
    /// unique, and every food and junction row references existing rows.
    pub open spec fn wf(self) -> bool {
        &&& self.restaurants@.len() < i64::MAX
        &&& self.ingredients@.len() < i64::MAX
        &&& self.foods@.len() < i64::MAX
        &&& forall|i: int|
            0 <= i < self.restaurants@.len() ==> (#[trigger] self.restaurants@[i]).id == i + 1
        &&& forall|i: int, j: int|
            0 <= i < j < self.restaurants@.len() ==> (#[trigger] self.restaurants@[i]).name@ != (
            #[trigger] self.restaurants@[j]).name@
        &&& forall|i: int|
            0 <= i < self.ingredients@.len() ==> (#[trigger] self.ingredients@[i]).id == i + 1
        &&& forall|i: int, j: int|
            0 <= i < j < self.ingredients@.len() ==> (#[trigger] self.ingredients@[i]).name@ != (
            #[trigger] self.ingredients@[j]).name@
        &&& forall|i: int| 0 <= i < self.foods@.len() ==> (#[trigger] self.foods@[i]).id == i + 1
        &&& forall|i: int, j: int|
            0 <= i < j < self.foods@.len() ==> (#[trigger] self.foods@[i]).name@ != (
            #[trigger] self.foods@[j]).name@
        &&& forall|i: int|
            0 <= i < self.foods@.len() ==> self.has_restaurant_id(
                (#[trigger] self.foods@[i]).restaurant_id,
            )
        &&& forall|i: int, j: int|
            0 <= i < j < self.food_ingredients@.len() ==> (#[trigger] self.food_ingredients@[i])
                != (#[trigger] self.food_ingredients@[j])
        &&& forall|i: int|
            0 <= i < self.food_ingredients@.len() ==> self.has_food_id(
                (#[trigger] self.food_ingredients@[i]).food_id,
            ) && self.has_ingredient_id(self.food_ingredients@[i].ingredient_id)
    }

    pub open spec fn has_restaurant_name(self, name: Seq<char>) -> bool {
        exists|i: int|
            0 <= i < self.restaurants@.len() && (#[trigger] self.restaurants@[i]).name@ == name
    }

    pub open spec fn has_restaurant_id(self, id: i64) -> bool {
        exists|i: int| 0 <= i < self.restaurants@.len() && (#[trigger] self.restaurants@[i]).id == id
    }

    pub open spec fn has_ingredient_name(self, name: Seq<char>) -> bool {
        exists|i: int|
            0 <= i < self.ingredients@.len() && (#[trigger] self.ingredients@[i]).name@ == name
    }

    pub open spec fn has_ingredient_id(self, id: i64) -> bool {
        exists|i: int| 0 <= i < self.ingredients@.len() && (#[trigger] self.ingredients@[i]).id == id
    }

    pub open spec fn has_food_name(self, name: Seq<char>) -> bool {
        exists|i: int| 0 <= i < self.foods@.len() && (#[trigger] self.foods@[i]).name@ == name
    }

    pub open spec fn has_food_id(self, id: i64) -> bool {
        exists|i: int| 0 <= i < self.foods@.len() && (#[trigger] self.foods@[i]).id == id
    }

    pub open spec fn has_link(self, food_id: i64, ingredient_id: i64) -> bool {
        exists|i: int|
            0 <= i < self.food_ingredients@.len() && (#[trigger] self.food_ingredients@[i])
                == (FoodIngredient { food_id, ingredient_id })
    }

    /// An empty, well-formed store.
    pub fn new() -> (s: Store)
        ensures
            s.wf(),
            s.restaurants@.len() == 0,
            s.ingredients@.len() == 0,
            s.foods@.len() == 0,
            s.food_ingredients@.len() == 0,
    {
        Store { restaurants: Vec::new(), ingredients: Vec::new(), foods: Vec::new(), food_ingredients: Vec::new() }
    }

    /// Idempotent restaurant insert: a no-op when a restaurant with that
    /// name is already stored, otherwise appends a row with the next id.
    pub fn insert_restaurant(&mut self, name: &str)
        requires
            old(self).wf(),
            old(self).restaurants@.len() + 1 < i64::MAX,
        ensures
            final(self).wf(),
            final(self).ingredients == old(self).ingredients,
            final(self).foods == old(self).foods,
            final(self).food_ingredients == old(self).food_ingredients,
            old(self).has_restaurant_name(name@) ==> final(self).restaurants == old(self).restaurants,
            !old(self).has_restaurant_name(name@) ==> {
                &&& final(self).restaurants@.len() == old(self).restaurants@.len() + 1
                &&& final(self).restaurants@.take(old(self).restaurants@.len() as int) == old(self).restaurants@
                &&& final(self).restaurants@.last().name@ == name@
                &&& final(self).restaurants@.last().id == old(self).restaurants@.len() + 1
            },
            final(self).has_restaurant_name(name@),
    {
        let n = self.restaurants.len();
        let mut k: usize = 0;
        while k < n
            invariant
                k <= n,
                n == self.restaurants@.len(),
                *self == *old(self),
                self.wf(),
                forall|m: int| 0 <= m < k ==> (#[trigger] self.restaurants@[m]).name@ != name@,
            decreases n - k,
        {
            if str_eq(self.restaurants[k].name.as_str(), name) {
                assert(self.restaurants@[k as int].name@ == name@);
                return ;
            }
            k += 1;
        }
        assert(!self.has_restaurant_name(name@));
        let id = self.restaurants.len() as i64 + 1;
        self.restaurants.push(Restaurant { id, name: name.to_owned() });
        proof {
            let a = *old(self);
            let m = a.restaurants@.len() as int;
            assert(self.restaurants@.take(m) =~= a.restaurants@);
            assert(a.ingredients@ =~= self.ingredients@.take(a.ingredients@.len() as int));
            assert(a.foods@ =~= self.foods@.take(a.foods@.len() as int));
            lemma_ids_monotone(a, *self);
            assert(self.restaurants@.last().name@ == name@);
            assert forall|i: int, j: int| 0 <= i < j < self.restaurants@.len() implies (
            #[trigger] self.restaurants@[i]).name@ != (#[trigger] self.restaurants@[j]).name@ by {
                assert(self.restaurants@[i] == a.restaurants@[i]);
                if j < m {
                    assert(a.restaurants@[j].name@ != a.restaurants@[i].name@);
                } else {
                    assert(a.restaurants@[i].name@ != name@);
                }
            }
            assert forall|i: int| 0 <= i < self.restaurants@.len() implies (
            #[trigger] self.restaurants@[i]).id == i + 1 by {
                if i < m {
                    assert(self.restaurants@[i] == a.restaurants@[i]);
                }
            }
            assert forall|i: int| 0 <= i < self.foods@.len() implies self.has_restaurant_id(
                (#[trigger] self.foods@[i]).restaurant_id,
            ) by {
                assert(a.foods@[i] == self.foods@[i]);
                assert(a.has_restaurant_id(a.foods@[i].restaurant_id));
            }
            assert forall|i: int| 0 <= i < self.food_ingredients@.len() implies self.has_food_id(
                (#[trigger] self.food_ingredients@[i]).food_id,
            ) && self.has_ingredient_id(self.food_ingredients@[i].ingredient_id) by {
                assert(a.food_ingredients@[i] == self.food_ingredients@[i]);
                assert(a.has_food_id(a.food_ingredients@[i].food_id));
                assert(a.has_ingredient_id(a.food_ingredients@[i].ingredient_id));
            }
        }
    }

    /// Idempotent ingredient insert: a no-op on a name collision.
    pub fn insert_ingredient(&mut self, name: &str, description: &str, hazard_level: i32)
        requires
            old(self).wf(),
            old(self).ingredients@.len() + 1 < i64::MAX,
        ensures
            final(self).wf(),
            final(self).restaurants == old(self).restaurants,
            final(self).foods == old(self).foods,
            final(self).food_ingredients == old(self).food_ingredients,
            old(self).has_ingredient_name(name@) ==> final(self).ingredients == old(self).ingredients,
            !old(self).has_ingredient_name(name@) ==> {
                &&& final(self).ingredients@.len() == old(self).ingredients@.len() + 1
                &&& final(self).ingredients@.take(old(self).ingredients@.len() as int) == old(self).ingredients@
                &&& final(self).ingredients@.last().name@ == name@
                &&& final(self).ingredients@.last().description@ == description@
                &&& final(self).ingredients@.last().hazard_level == hazard_level
                &&& final(self).ingredients@.last().id == old(self).ingredients@.len() + 1
            },
            final(self).has_ingredient_name(name@),
    {
        let n = self.ingredients.len();
        let mut k: usize = 0;
        while k < n
            invariant
                k <= n,
                n == self.ingredients@.len(),
                *self == *old(self),
                self.wf(),
                forall|m: int| 0 <= m < k ==> (#[trigger] self.ingredients@[m]).name@ != name@,
            decreases n - k,
        {
            if str_eq(self.ingredients[k].name.as_str(), name) {
                assert(self.ingredients@[k as int].name@ == name@);
                return ;
            }
            k += 1;
        }
        assert(!self.has_ingredient_name(name@));
        let id = self.ingredients.len() as i64 + 1;
        self.ingredients.push(
            Ingredient { id, name: name.to_owned(), description: description.to_owned(), hazard_level },
        );
        proof {
            let a = *old(self);
            let m = a.ingredients@.len() as int;
            assert(self.ingredients@.take(m) =~= a.ingredients@);
            assert(a.restaurants@ =~= self.restaurants@.take(a.restaurants@.len() as int));
            assert(a.foods@ =~= self.foods@.take(a.foods@.len() as int));
            lemma_ids_monotone(a, *self);
            assert(self.ingredients@.last().name@ == name@);
            assert forall|i: int, j: int| 0 <= i < j < self.ingredients@.len() implies (
            #[trigger] self.ingredients@[i]).name@ != (#[trigger] self.ingredients@[j]).name@ by {
                assert(self.ingredients@[i] == a.ingredients@[i]);
                if j < m {
                    assert(a.ingredients@[j].name@ != a.ingredients@[i].name@);
                } else {
                    assert(a.ingredients@[i].name@ != name@);
                }
            }
            assert forall|i: int| 0 <= i < self.ingredients@.len() implies (
            #[trigger] self.ingredients@[i]).id == i + 1 by {
                if i < m {
                    assert(self.ingredients@[i] == a.ingredients@[i]);
                }
            }
            assert forall|i: int| 0 <= i < self.foods@.len() implies self.has_restaurant_id(
                (#[trigger] self.foods@[i]).restaurant_id,
            ) by {
                assert(a.foods@[i] == self.foods@[i]);
                assert(a.has_restaurant_id(a.foods@[i].restaurant_id));
            }
            assert forall|i: int| 0 <= i < self.food_ingredients@.len() implies self.has_food_id(
                (#[trigger] self.food_ingredients@[i]).food_id,
            ) && self.has_ingredient_id(self.food_ingredients@[i].ingredient_id) by {
                assert(a.food_ingredients@[i] == self.food_ingredients@[i]);
                assert(a.has_food_id(a.food_ingredients@[i].food_id));
                assert(a.has_ingredient_id(a.food_ingredients@[i].ingredient_id));
            }
        }
    }

    fn has_restaurant_id_exec(&self, id: i64) -> (r: bool)
        ensures
            r == self.has_restaurant_id(id),
    {
        let n = self.restaurants.len();
        let mut k: usize = 0;
        while k < n
            invariant
                k <= n,
                n == self.restaurants@.len(),
                forall|m: int| 0 <= m < k ==> (#[trigger] self.restaurants@[m]).id != id,
            decreases n - k,
        {
            if self.restaurants[k].id == id {
                assert(self.restaurants@[k as int].id == id);
                return true;
            }
            k += 1;
        }
        false
    }

    fn has_food_name_exec(&self, name: &str) -> (r: bool)
        ensures
            r == self.has_food_name(name@),
    {
        let n = self.foods.len();
        let mut k: usize = 0;
        while k < n
            invariant
                k <= n,
                n == self.foods@.len(),
                forall|m: int| 0 <= m < k ==> (#[trigger] self.foods@[m]).name@ != name@,
            decreases n - k,
        {
            if str_eq(self.foods[k].name.as_str(), name) {
                assert(self.foods@[k as int].name@ == name@);
                return true;
            }
            k += 1;
        }
        false
    }

    /// Idempotent food insert. With an explicit restaurant reference the
    /// referenced restaurant must exist; without one, a restaurant is
    /// resolved by the caller-supplied draw `pick` over the stored
    /// restaurants (uniform when `pick` is uniform), failing only when no
    /// restaurant exists yet. On success the resolved restaurant id is
    /// returned for the caller's audit log.
    pub fn insert_food(
        &mut self,
        restaurant_ref: Option<i64>,
        name: &str,
        macro_table: &str,
        is_organic: bool,
        is_gluten_free: bool,
        is_alcohol_free: bool,
        is_lactose_free: bool,
        pick: usize,
    ) -> (res: Result<i64, SeedError>)
        requires
            old(self).wf(),
            old(self).foods@.len() + 1 < i64::MAX,
        ensures
            final(self).wf(),
            restaurant_ref matches Some(rid) ==> {
                &&& !old(self).has_restaurant_id(rid) ==> res == Err::<i64, SeedError>(
                    SeedError::UnknownRestaurant,
                ) && *final(self) == *old(self)
                &&& old(self).has_restaurant_id(rid) ==> res == Ok::<i64, SeedError>(rid)
                    && food_inserted(
                    *old(self),
                    *final(self),
                    rid,
                    name@,
                    macro_table@,
                    is_organic,
                    is_gluten_free,
                    is_alcohol_free,
                    is_lactose_free,
                )
            },
            restaurant_ref is None && old(self).restaurants@.len() == 0 ==> res == Err::<
                i64,
                SeedError,
            >(SeedError::EmptyPrerequisiteSet) && *final(self) == *old(self),
            restaurant_ref is None && old(self).restaurants@.len() > 0 ==> {
                let rid = old(self).restaurants@[pick as int % old(self).restaurants@.len() as int].id;
                res == Ok::<i64, SeedError>(rid) && food_inserted(
                    *old(self),
                    *final(self),
                    rid,
                    name@,
                    macro_table@,
                    is_organic,
                    is_gluten_free,
                    is_alcohol_free,
                    is_lactose_free,
                )
            },
    {
        let rid: i64 = match restaurant_ref {
            Some(r) => {
                if !self.has_restaurant_id_exec(r) {
                    return Err(SeedError::UnknownRestaurant);
                }
                r
            },
            None => {
                let n = self.restaurants.len();
                if n == 0 {
                    return Err(SeedError::EmptyPrerequisiteSet);
                }
                let chosen = &self.restaurants[pick % n];
                assert(self.restaurants@[pick as int % n as int].id == chosen.id);
                chosen.id
            },
        };
        assert(self.has_restaurant_id(rid));
        if self.has_food_name_exec(name) {
            return Ok(rid);
        }
        let id = self.foods.len() as i64 + 1;
        self.foods.push(
            Food {
                id,
                restaurant_id: rid,
                name: name.to_owned(),
                macro_table: macro_table.to_owned(),
                is_organic,
                is_gluten_free,
                is_alcohol_free,
                is_lactose_free,
            },
        );
        proof {
            let a = *old(self);
            let m = a.foods@.len() as int;
            assert(self.foods@.take(m) =~= a.foods@);
            assert(a.restaurants@ =~= self.restaurants@.take(a.restaurants@.len() as int));
            assert(a.ingredients@ =~= self.ingredients@.take(a.ingredients@.len() as int));
            lemma_ids_monotone(a, *self);
            assert(self.foods@.last().name@ == name@);
            assert forall|i: int, j: int| 0 <= i < j < self.foods@.len() implies (
            #[trigger] self.foods@[i]).name@ != (#[trigger] self.foods@[j]).name@ by {
                assert(self.foods@[i] == a.foods@[i]);
                if j < m {
                    assert(a.foods@[j].name@ != a.foods@[i].name@);
                } else {
                    assert(a.foods@[i].name@ != name@);
                }
            }
            assert forall|i: int| 0 <= i < self.foods@.len() implies (#[trigger] self.foods@[i]).id
                == i + 1 by {
                if i < m {
                    assert(self.foods@[i] == a.foods@[i]);
                }
            }
            assert forall|i: int| 0 <= i < self.foods@.len() implies self.has_restaurant_id(
                (#[trigger] self.foods@[i]).restaurant_id,
            ) by {
                if i < m {
                    assert(a.foods@[i] == self.foods@[i]);
                    assert(a.has_restaurant_id(a.foods@[i].restaurant_id));
                } else {
                    assert(a.has_restaurant_id(rid));
                }
            }
            assert forall|i: int| 0 <= i < self.food_ingredients@.len() implies self.has_food_id(
                (#[trigger] self.food_ingredients@[i]).food_id,
            ) && self.has_ingredient_id(self.food_ingredients@[i].ingredient_id) by {
                assert(a.food_ingredients@[i] == self.food_ingredients@[i]);
                assert(a.has_food_id(a.food_ingredients@[i].food_id));
                assert(a.has_ingredient_id(a.food_ingredients@[i].ingredient_id));
            }
        }
        Ok(rid)
    }

    /// Idempotent junction insert: a no-op when the (food, ingredient)
    /// pair is already linked.
    pub fn insert_food_ingredient(&mut self, food_id: i64, ingredient_id: i64)
        requires
            old(self).wf(),
            old(self).has_food_id(food_id),
            old(self).has_ingredient_id(ingredient_id),
        ensures
            final(self).wf(),
            final(self).restaurants == old(self).restaurants,
            final(self).ingredients == old(self).ingredients,
            final(self).foods == old(self).foods,
            old(self).has_link(food_id, ingredient_id) ==> final(self).food_ingredients == old(self).food_ingredients,
            !old(self).has_link(food_id, ingredient_id) ==> final(self).food_ingredients@ == old(self).food_ingredients@.push((FoodIngredient { food_id, ingredient_id })),
            final(self).has_link(food_id, ingredient_id),
    {
        let n = self.food_ingredients.len();
        let mut k: usize = 0;
        while k < n
            invariant
                k <= n,
                n == self.food_ingredients@.len(),
                *self == *old(self),
                self.wf(),
                forall|m: int|
                    0 <= m < k ==> (#[trigger] self.food_ingredients@[m]) != (FoodIngredient {
                        food_id,
                        ingredient_id,
                    }),
            decreases n - k,
        {
            let l = &self.food_ingredients[k];
            if l.food_id == food_id && l.ingredient_id == ingredient_id {
                assert(self.food_ingredients@[k as int] == (FoodIngredient {
                    food_id,
                    ingredient_id,
                }));
                return ;
            }
            k += 1;
        }
        assert(!self.has_link(food_id, ingredient_id));
        self.food_ingredients.push(FoodIngredient { food_id, ingredient_id });
        proof {
            let a = *old(self);
            let m = a.food_ingredients@.len() as int;
            let l = (FoodIngredient { food_id, ingredient_id });
            assert(a.restaurants@ =~= self.restaurants@.take(a.restaurants@.len() as int));
            assert(a.ingredients@ =~= self.ingredients@.take(a.ingredients@.len() as int));
            assert(a.foods@ =~= self.foods@.take(a.foods@.len() as int));
            lemma_ids_monotone(a, *self);
            assert(self.food_ingredients@.last() == l);
            assert(self.has_link(food_id, ingredient_id));
            assert forall|i: int, j: int| 0 <= i < j < self.food_ingredients@.len() implies (
            #[trigger] self.food_ingredients@[i]) != (#[trigger] self.food_ingredients@[j]) by {
                assert(self.food_ingredients@[i] == a.food_ingredients@[i]);
                if j < m {
                    assert(a.food_ingredients@[j] != a.food_ingredients@[i]);
                } else {
                    assert(a.food_ingredients@[i] != l);
                }
            }
            assert forall|i: int| 0 <= i < self.food_ingredients@.len() implies self.has_food_id(
                (#[trigger] self.food_ingredients@[i]).food_id,
            ) && self.has_ingredient_id(self.food_ingredients@[i].ingredient_id) by {
                if i < m {
                    assert(a.food_ingredients@[i] == self.food_ingredients@[i]);
                    assert(a.has_food_id(a.food_ingredients@[i].food_id));
                    assert(a.has_ingredient_id(a.food_ingredients@[i].ingredient_id));
                } else {
                    assert(a.has_food_id(food_id) && a.has_ingredient_id(ingredient_id));
                }
            }
        }
    }
}

/// What a successful food insert leaves behind: every other table is
/// untouched; a food whose name is already stored is dropped (idempotence
/// by natural key), otherwise a row with the next id and the given fields
/// is appended, referencing restaurant `rid`.
pub open spec fn food_inserted(
    old_s: Store,
    new_s: Store,
    rid: i64,
    name: Seq<char>,
    macro_table: Seq<char>,
    is_organic: bool,
    is_gluten_free: bool,
    is_alcohol_free: bool,
    is_lactose_free: bool,
) -> bool {
    &&& new_s.restaurants == old_s.restaurants
    &&& new_s.ingredients == old_s.ingredients
    &&& new_s.food_ingredients == old_s.food_ingredients
    &&& old_s.has_food_name(name) ==> new_s.foods == old_s.foods
    &&& !old_s.has_food_name(name) ==> {
        &&& new_s.foods@.len() == old_s.foods@.len() + 1
        &&& new_s.foods@.take(old_s.foods@.len() as int) == old_s.foods@
        &&& new_s.foods@.last().id == old_s.foods@.len() + 1
        &&& new_s.foods@.last().restaurant_id == rid
        &&& new_s.foods@.last().name@ == name
        &&& new_s.foods@.last().macro_table@ == macro_table
        &&& new_s.foods@.last().is_organic == is_organic
        &&& new_s.foods@.last().is_gluten_free == is_gluten_free
        &&& new_s.foods@.last().is_alcohol_free == is_alcohol_free
        &&& new_s.foods@.last().is_lactose_free == is_lactose_free
    }
    &&& new_s.has_food_name(name)
}

/// Ids that exist in a store keep existing when its tables only grow at
/// the end.
proof fn lemma_ids_monotone(a: Store, b: Store)
    requires
        a.restaurants@ == b.restaurants@.take(a.restaurants@.len() as int),
        a.restaurants@.len() <= b.restaurants@.len(),
        a.ingredients@ == b.ingredients@.take(a.ingredients@.len() as int),
        a.ingredients@.len() <= b.ingredients@.len(),
        a.foods@ == b.foods@.take(a.foods@.len() as int),
        a.foods@.len() <= b.foods@.len(),
    ensures
        forall|id: i64| a.has_restaurant_id(id) ==> b.has_restaurant_id(id),
        forall|id: i64| a.has_ingredient_id(id) ==> b.has_ingredient_id(id),
        forall|id: i64| a.has_food_id(id) ==> b.has_food_id(id),
{
    assert forall|id: i64| a.has_restaurant_id(id) implies b.has_restaurant_id(id) by {
        let j = choose|j: int|
            0 <= j < a.restaurants@.len() && (#[trigger] a.restaurants@[j]).id == id;
        assert(b.restaurants@.take(a.restaurants@.len() as int)[j] == a.restaurants@[j]);
        assert(b.restaurants@[j].id == id);
    }
    assert forall|id: i64| a.has_ingredient_id(id) implies b.has_ingredient_id(id) by {
        let j = choose|j: int|
            0 <= j < a.ingredients@.len() && (#[trigger] a.ingredients@[j]).id == id;
        assert(b.ingredients@.take(a.ingredients@.len() as int)[j] == a.ingredients@[j]);
        assert(b.ingredients@[j].id == id);
    }
    assert forall|id: i64| a.has_food_id(id) implies b.has_food_id(id) by {
        let j = choose|j: int| 0 <= j < a.foods@.len() && (#[trigger] a.foods@[j]).id == id;
        assert(b.foods@.take(a.foods@.len() as int)[j] == a.foods@[j]);
        assert(b.foods@[j].id == id);
    }
}

/// Law: a well-formed store holds at most one restaurant row per name, so
/// inserting a name twice can only ever leave one row with that name.
pub proof fn lemma_restaurant_name_unique(s: Store, i: int, j: int)
    requires
        s.wf(),
        0 <= i < s.restaurants@.len(),
        0 <= j < s.restaurants@.len(),
        s.restaurants@[i].name@ == s.restaurants@[j].name@,
    ensures
        i == j,
{
}

/// Law: a well-formed store holds at most one ingredient row per name.
pub proof fn lemma_ingredient_name_unique(s: Store, i: int, j: int)
    requires
        s.wf(),
        0 <= i < s.ingredients@.len(),
        0 <= j < s.ingredients@.len(),
        s.ingredients@[i].name@ == s.ingredients@[j].name@,
    ensures
        i == j,
{
}

} // verus!
