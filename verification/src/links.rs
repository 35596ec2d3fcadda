//! Random food-ingredient relationship generation: once all foods and
//! ingredients exist, every food is linked to a bounded random selection of
//! distinct ingredients, drawn without replacement.

use vstd::prelude::*;

use crate::store::{FoodIngredient, SeedError, Store};

verus! {

/// Relies on `rand`: `rand::rng()` yields the thread-local generator and
/// `RngExt::random_range` returns a uniformly distributed value from the
/// given range, which is non-empty here.
#[verifier::external_body]
pub(crate) fn random_below(n: usize) -> (r: usize)
    requires
        n >= 1,
    ensures
        r < n,
{
    rand::RngExt::random_range(&mut rand::rng(), 0..n)
}

/// The ingredient ids linked to `food_id`, in junction-row order.
pub open spec fn links_of(links: Seq<FoodIngredient>, food_id: i64) -> Seq<i64> {
    links.filter(|l: FoodIngredient| l.food_id == food_id).map_values(
        |l: FoodIngredient| l.ingredient_id,
    )
}

/// Appending one junction row extends exactly the link set of its own food.
pub proof fn lemma_links_of_push(links: Seq<FoodIngredient>, l: FoodIngredient, food_id: i64)
    ensures
        l.food_id == food_id ==> links_of(links.push(l), food_id) == links_of(
            links,
            food_id,
        ).push(l.ingredient_id),
        l.food_id != food_id ==> links_of(links.push(l), food_id) == links_of(links, food_id),
{
    broadcast use vstd::seq_lib::group_seq_properties;

    let p = |x: FoodIngredient| x.food_id == food_id;
    let g = |x: FoodIngredient| x.ingredient_id;
    links.lemma_filter_push(l, p);
    if p(l) {
        assert(links.filter(p).push(l).map_values(g) =~= links.filter(p).map_values(g).push(
            l.ingredient_id,
        ));
    }
}

/// A junction row for `food_id` puts its ingredient id among that food's
/// links.
pub proof fn lemma_links_of_contains(links: Seq<FoodIngredient>, k: int, food_id: i64)
    requires
        0 <= k < links.len(),
        links[k].food_id == food_id,
    ensures
        links_of(links, food_id).contains(links[k].ingredient_id),
{
    let p = |x: FoodIngredient| x.food_id == food_id;
    links.lemma_filter_contains(p, k);
    let f = links.filter(p);
    let idx = choose|i: int| 0 <= i < f.len() && f[i] == links[k];
    assert(links_of(links, food_id)[idx] == links[k].ingredient_id);
}

/// Law: when junction rows are pairwise distinct, the ingredients linked to
/// any one food are pairwise distinct too.
pub proof fn lemma_links_of_no_dup(links: Seq<FoodIngredient>, food_id: i64)
    requires
        forall|i: int, j: int| 0 <= i < j < links.len() ==> links[i] != links[j],
    ensures
        links_of(links, food_id).no_duplicates(),
        forall|x: i64|
            links_of(links, food_id).contains(x) ==> links.contains(
                (FoodIngredient { food_id, ingredient_id: x }),
            ),
    decreases links.len(),
{
    broadcast use vstd::seq_lib::group_seq_properties;

    let p = |x: FoodIngredient| x.food_id == food_id;
    if links.len() == 0 {
        links.lemma_filter_len(p);
        assert(links_of(links, food_id) =~= Seq::<i64>::empty());
    } else {
        let pre = links.drop_last();
        let l = links.last();
        lemma_links_of_no_dup(pre, food_id);
        assert(links =~= pre.push(l));
        lemma_links_of_push(pre, l, food_id);
        let cur = links_of(links, food_id);
        let prev = links_of(pre, food_id);
        if l.food_id == food_id {
            assert(cur == prev.push(l.ingredient_id));
            if prev.contains(l.ingredient_id) {
                assert(pre.contains((FoodIngredient { food_id, ingredient_id: l.ingredient_id })));
                let k = choose|k: int|
                    0 <= k < pre.len() && pre[k] == (FoodIngredient {
                        food_id,
                        ingredient_id: l.ingredient_id,
                    });
                assert(links[k] == links[links.len() - 1]);
                assert(false);
            }
            assert forall|i: int, j: int| 0 <= i < j < cur.len() implies cur[i] != cur[j] by {
                if j < prev.len() {
                    assert(cur[i] == prev[i] && cur[j] == prev[j]);
                } else {
                    assert(cur[i] == prev[i]);
                    assert(prev.contains(prev[i]));
                }
            }
            assert forall|x: i64| cur.contains(x) implies links.contains(
                (FoodIngredient { food_id, ingredient_id: x }),
            ) by {
                let i = choose|i: int| 0 <= i < cur.len() && cur[i] == x;
                if i < prev.len() {
                    assert(prev[i] == x);
                    assert(prev.contains(x));
                    assert(pre.contains((FoodIngredient { food_id, ingredient_id: x })));
                    let k = choose|k: int|
                        0 <= k < pre.len() && pre[k] == (FoodIngredient { food_id, ingredient_id: x });
                    assert(links[k] == pre[k]);
                } else {
                    assert(x == l.ingredient_id);
                    assert(links[links.len() - 1] == (FoodIngredient { food_id, ingredient_id: x }));
                }
            }
        } else {
            assert(cur == prev);
            assert forall|x: i64| cur.contains(x) implies links.contains(
                (FoodIngredient { food_id, ingredient_id: x }),
            ) by {
                assert(prev.contains(x));
                assert(pre.contains((FoodIngredient { food_id, ingredient_id: x })));
                let k = choose|k: int|
                    0 <= k < pre.len() && pre[k] == (FoodIngredient { food_id, ingredient_id: x });
                assert(links[k] == pre[k]);
            }
        }
    }
}

/// A store without junction rows links nothing.
pub proof fn lemma_links_of_empty(links: Seq<FoodIngredient>, food_id: i64)
    requires
        links.len() == 0,
    ensures
        links_of(links, food_id).len() == 0,
{
    links.lemma_filter_len(|l: FoodIngredient| l.food_id == food_id);
}

/// Law: in a well-formed store the ingredient ids linked to any one food
/// are pairwise distinct, so counting a food's junction rows counts
/// distinct ingredients.
pub proof fn lemma_food_links_distinct(s: Store, food_id: i64)
    requires
        s.wf(),
    ensures
        links_of(s.food_ingredients@, food_id).no_duplicates(),
{
    lemma_links_of_no_dup(s.food_ingredients@, food_id);
}

/// Removing an element keeps the rest distinct, inside the original
/// sequence, and without the removed element.
proof fn lemma_remove_keeps_distinct(s: Seq<i64>, i: int)
    requires
        s.no_duplicates(),
        0 <= i < s.len(),
    ensures
        s.remove(i).no_duplicates(),
        forall|x: i64| s.remove(i).contains(x) ==> s.contains(x),
        !s.remove(i).contains(s[i]),
{
    let r = s.remove(i);
    s.remove_ensures(i);
    assert forall|a: int, b: int| 0 <= a < b < r.len() implies r[a] != r[b] by {
        let a2: int = if a < i {
            a
        } else {
            a + 1
        };
        let b2: int = if b < i {
            b
        } else {
            b + 1
        };
        assert(r[a] == s[a2] && r[b] == s[b2]);
    }
    assert forall|x: i64| r.contains(x) implies s.contains(x) by {
        let a = choose|a: int| 0 <= a < r.len() && r[a] == x;
        let a2: int = if a < i {
            a
        } else {
            a + 1
        };
        assert(s[a2] == x);
    }
    if r.contains(s[i]) {
        let a = choose|a: int| 0 <= a < r.len() && r[a] == s[i];
        let a2: int = if a < i {
            a
        } else {
            a + 1
        };
        assert(s[a2] == s[i] && a2 != i);
        assert(false);
    }
}

/// Draws `count` pairwise distinct elements of `pool` without replacement
/// (all of `pool` when it holds fewer than `count`), each round choosing
/// uniformly among the elements not yet taken.
pub fn sample_distinct(pool: &Vec<i64>, count: usize) -> (res: Vec<i64>)
    requires
        pool@.no_duplicates(),
    ensures
        res@.len() == if count <= pool@.len() {
            count as int
        } else {
            pool@.len() as int
        },
        res@.no_duplicates(),
        forall|j: int| 0 <= j < res@.len() ==> pool@.contains(#[trigger] res@[j]),
{
    let mut remaining: Vec<i64> = Vec::new();
    let mut i: usize = 0;
    while i < pool.len()
        invariant
            i <= pool@.len(),
            remaining@ == pool@.take(i as int),
        decreases pool@.len() - i,
    {
        remaining.push(pool[i]);
        proof {
            assert(pool@.take(i as int).push(pool@[i as int]) =~= pool@.take(i as int + 1));
        }
        i += 1;
    }
    proof {
        assert(pool@.take(pool@.len() as int) =~= pool@);
    }
    let take_n = if count <= remaining.len() {
        count
    } else {
        remaining.len()
    };
    let mut res: Vec<i64> = Vec::new();
    let mut t: usize = 0;
    while t < take_n
        invariant
            t <= take_n,
            take_n <= pool@.len(),
            take_n == if count <= pool@.len() {
                count as int
            } else {
                pool@.len() as int
            },
            remaining@.len() == pool@.len() - t,
            res@.len() == t as int,
            res@.no_duplicates(),
            remaining@.no_duplicates(),
            forall|j: int| 0 <= j < res@.len() ==> pool@.contains(#[trigger] res@[j]),
            forall|j: int| 0 <= j < remaining@.len() ==> pool@.contains(#[trigger] remaining@[j]),
            forall|x: i64| res@.contains(x) ==> !remaining@.contains(x),
        decreases take_n - t,
    {
        let ghost rem0 = remaining@;
        let ghost res0 = res@;
        let idx = random_below(remaining.len());
        let x = remaining.remove(idx);
        proof {
            lemma_remove_keeps_distinct(rem0, idx as int);
            assert(rem0.contains(x));
            assert(!res0.contains(x));
        }
        res.push(x);
        proof {
            assert forall|a: int, b: int| 0 <= a < b < res@.len() implies res@[a] != res@[b] by {
                if b < res0.len() {
                    assert(res@[a] == res0[a] && res@[b] == res0[b]);
                } else {
                    assert(res@[a] == res0[a]);
                    assert(res0.contains(res0[a]));
                }
            }
            assert forall|y: i64| res@.contains(y) implies !remaining@.contains(y) by {
                let a = choose|a: int| 0 <= a < res@.len() && res@[a] == y;
                if a < res0.len() {
                    assert(res0.contains(y));
                    if remaining@.contains(y) {
                        assert(rem0.contains(y));
                    }
                } else {
                    assert(y == x);
                }
            }
        }
        t += 1;
    }
    res
}

impl Store {
    /// Reads back the full food and ingredient id sets and links every food
    /// to a random bounded selection of ingredients: a count drawn uniformly
    /// from one to three, then that many distinct ingredients drawn without
    /// replacement (all of them when fewer exist). Junction rows are written
    /// idempotently. When either id set is empty only this stage is skipped.
    pub fn create_random_food_ingredient_relations(&mut self) -> (res: Result<(), SeedError>)
        requires
            old(self).wf(),
        ensures
            final(self).wf(),
            final(self).restaurants == old(self).restaurants,
            final(self).ingredients == old(self).ingredients,
            final(self).foods == old(self).foods,
            old(self).foods@.len() == 0 || old(self).ingredients@.len() == 0 ==> res == Err::<
                (),
                SeedError,
            >(SeedError::EmptyPrerequisiteSet) && *final(self) == *old(self),
            old(self).foods@.len() > 0 && old(self).ingredients@.len() > 0 ==> res == Ok::<
                (),
                SeedError,
            >(()),
            res is Ok ==> {
                &&& final(self).food_ingredients@.len() >= old(self).food_ingredients@.len()
                &&& final(self).food_ingredients@.take(old(self).food_ingredients@.len() as int)
                    == old(self).food_ingredients@
                &&& forall|i: int|
                    0 <= i < old(self).foods@.len() ==> {
                        let fid = (#[trigger] old(self).foods@[i]).id;
                        &&& links_of(final(self).food_ingredients@, fid).len() >= 1
                        &&& links_of(final(self).food_ingredients@, fid).len() <= links_of(
                            old(self).food_ingredients@,
                            fid,
                        ).len() + 3
                        &&& links_of(final(self).food_ingredients@, fid).len() <= links_of(
                            old(self).food_ingredients@,
                            fid,
                        ).len() + old(self).ingredients@.len()
                    }
            },
    {
        if self.foods.len() == 0 || self.ingredients.len() == 0 {
            return Err(SeedError::EmptyPrerequisiteSet);
        }
        let mut ingredient_ids: Vec<i64> = Vec::new();
        let n_ing = self.ingredients.len();
        let mut k: usize = 0;
        while k < n_ing
            invariant
                k <= n_ing,
                n_ing == self.ingredients@.len(),
                *self == *old(self),
                ingredient_ids@.len() == k as int,
                forall|m: int|
                    0 <= m < k ==> #[trigger] ingredient_ids@[m] == self.ingredients@[m].id,
            decreases n_ing - k,
        {
            let idv = self.ingredients[k].id;
            ingredient_ids.push(idv);
            k += 1;
        }
        proof {
            assert forall|a: int, b: int|
                0 <= a < b < ingredient_ids@.len() implies ingredient_ids@[a]
                != ingredient_ids@[b] by {
                assert(self.ingredients@[a].id == a + 1);
                assert(self.ingredients@[b].id == b + 1);
            }
            assert(ingredient_ids@.no_duplicates());
        }
        let nfoods = self.foods.len();
        let mut i: usize = 0;
        while i < nfoods
            invariant
                i <= nfoods,
                nfoods == old(self).foods@.len(),
                old(self).wf(),
                self.wf(),
                self.restaurants == old(self).restaurants,
                self.ingredients == old(self).ingredients,
                self.foods == old(self).foods,
                ingredient_ids@.len() == old(self).ingredients@.len(),
                ingredient_ids@.len() >= 1,
                ingredient_ids@.no_duplicates(),
                forall|m: int|
                    0 <= m < ingredient_ids@.len() ==> #[trigger] ingredient_ids@[m] == old(
                        self,
                    ).ingredients@[m].id,
                self.food_ingredients@.len() >= old(self).food_ingredients@.len(),
                self.food_ingredients@.take(old(self).food_ingredients@.len() as int) == old(
                    self,
                ).food_ingredients@,
                forall|i2: int|
                    0 <= i2 < i ==> {
                        let fid = (#[trigger] old(self).foods@[i2]).id;
                        &&& links_of(self.food_ingredients@, fid).len() >= 1
                        &&& links_of(self.food_ingredients@, fid).len() <= links_of(
                            old(self).food_ingredients@,
                            fid,
                        ).len() + 3
                        &&& links_of(self.food_ingredients@, fid).len() <= links_of(
                            old(self).food_ingredients@,
                            fid,
                        ).len() + old(self).ingredients@.len()
                    },
                forall|i2: int|
                    i <= i2 < nfoods ==> links_of(
                        self.food_ingredients@,
                        (#[trigger] old(self).foods@[i2]).id,
                    ) == links_of(old(self).food_ingredients@, old(self).foods@[i2].id),
            decreases nfoods - i,
        {
            let fid = self.foods[i].id;
            assert(self.foods@[i as int].id == fid);
            let cnt = 1 + random_below(3);
            let chosen = sample_distinct(&ingredient_ids, cnt);
            let ghost snap = *self;
            let ghost c = self.food_ingredients@;
            let mut j: usize = 0;
            while j < chosen.len()
                invariant
                    j <= chosen@.len(),
                    1 <= chosen@.len() <= 3,
                    chosen@.len() <= ingredient_ids@.len(),
                    forall|m: int|
                        0 <= m < chosen@.len() ==> ingredient_ids@.contains(#[trigger] chosen@[m]),
                    forall|m: int|
                        0 <= m < ingredient_ids@.len() ==> #[trigger] ingredient_ids@[m]
                            == snap.ingredients@[m].id,
                    ingredient_ids@.len() == snap.ingredients@.len(),
                    snap.wf(),
                    snap.foods@.len() > 0,
                    snap.has_food_id(fid),
                    self.wf(),
                    self.restaurants == snap.restaurants,
                    self.ingredients == snap.ingredients,
                    self.foods == snap.foods,
                    c == snap.food_ingredients@,
                    self.food_ingredients@.len() >= c.len(),
                    self.food_ingredients@.take(c.len() as int) == c,
                    links_of(self.food_ingredients@, fid).len() <= links_of(c, fid).len()
                        + j,
                    forall|g: i64|
                        g != fid ==> links_of(self.food_ingredients@, g) == links_of(c, g),
                    j >= 1 ==> self.has_link(fid, chosen@[0]),
                decreases chosen@.len() - j,
            {
                let gid = chosen[j];
                proof {
                    let w = choose|w: int|
                        0 <= w < snap.foods@.len() && (#[trigger] snap.foods@[w]).id == fid;
                    assert(self.foods@[w].id == fid);
                    assert(self.has_food_id(fid));
                    assert(ingredient_ids@.contains(chosen@[j as int]));
                    let m = choose|m: int|
                        0 <= m < ingredient_ids@.len() && ingredient_ids@[m] == gid;
                    assert(self.ingredients@[m].id == gid);
                    assert(self.has_ingredient_id(gid));
                }
                let ghost prev = *self;
                self.insert_food_ingredient(fid, gid);
                proof {
                    let l = (FoodIngredient { food_id: fid, ingredient_id: gid });
                    if !prev.has_link(fid, gid) {
                        lemma_links_of_push(prev.food_ingredients@, l, fid);
                        assert forall|g: i64| g != fid implies links_of(
                            self.food_ingredients@,
                            g,
                        ) == links_of(c, g) by {
                            lemma_links_of_push(prev.food_ingredients@, l, g);
                        }
                        assert(self.food_ingredients@.take(c.len() as int)
                            =~= prev.food_ingredients@.take(c.len() as int));
                    }
                    if j >= 1 {
                        let w = choose|w: int|
                            0 <= w < prev.food_ingredients@.len() && (
                            #[trigger] prev.food_ingredients@[w]) == (FoodIngredient {
                                food_id: fid,
                                ingredient_id: chosen@[0],
                            });
                        assert(self.food_ingredients@[w] == prev.food_ingredients@[w]);
                        assert(self.has_link(fid, chosen@[0]));
                    }
                }
                j += 1;
            }
            proof {
                let w = choose|w: int|
                    0 <= w < self.food_ingredients@.len() && (
                    #[trigger] self.food_ingredients@[w]) == (FoodIngredient {
                        food_id: fid,
                        ingredient_id: chosen@[0],
                    });
                lemma_links_of_contains(self.food_ingredients@, w, fid);
                let cnt_now = links_of(self.food_ingredients@, fid);
                let idx = choose|idx: int| 0 <= idx < cnt_now.len() && cnt_now[idx] == chosen@[0];
                assert(cnt_now.len() >= 1);
                assert(self.food_ingredients@.take(old(self).food_ingredients@.len() as int)
                    =~= old(self).food_ingredients@);
                assert(links_of(c, fid) == links_of(old(self).food_ingredients@, fid));
                assert forall|i2: int| i + 1 <= i2 < nfoods implies links_of(
                    self.food_ingredients@,
                    (#[trigger] old(self).foods@[i2]).id,
                ) == links_of(old(self).food_ingredients@, old(self).foods@[i2].id) by {
                    assert(old(self).foods@[i2].id == i2 + 1);
                    assert(old(self).foods@[i as int].id == i + 1);
                }
                assert forall|i2: int| 0 <= i2 < i + 1 implies {
                    let f2 = (#[trigger] old(self).foods@[i2]).id;
                    &&& links_of(self.food_ingredients@, f2).len() >= 1
                    &&& links_of(self.food_ingredients@, f2).len() <= links_of(
                        old(self).food_ingredients@,
                        f2,
                    ).len() + 3
                    &&& links_of(self.food_ingredients@, f2).len() <= links_of(
                        old(self).food_ingredients@,
                        f2,
                    ).len() + old(self).ingredients@.len()
                } by {
                    let f2 = old(self).foods@[i2].id;
                    if i2 < i {
                        assert(old(self).foods@[i2].id == i2 + 1);
                        assert(old(self).foods@[i as int].id == i + 1);
                        assert(f2 != fid);
                        assert(links_of(self.food_ingredients@, f2) == links_of(c, f2));
                    }
                }
            }
            i += 1;
        }
        Ok(())
    }
}

} // verus!
