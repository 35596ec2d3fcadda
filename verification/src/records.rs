//! Typed records parsed from delimited rows: arity validation, whitespace
//! trimming, and coercion to typed fields with fallback defaults. A row
//! whose field count does not match the expectation is rejected as a whole;
//! a field that fails to coerce degrades to its documented default.

use vstd::prelude::*;

use crate::nutrition::{build_macro_doc, macro_doc, views_of};
use crate::text::{
    coerce_bool, coerce_i32, coerce_restaurant_ref, spec_coerce_bool, spec_coerce_i32,
    spec_coerce_ref, split_fields, split_on_semicolon, trim, trimmed,
};

verus! {

/// A parsed ingredient row: `name;description;hazard_level`.
pub struct IngredientRecord {
    pub name: String,
    pub description: String,
    pub hazard_level: i32,
}

/// Parses an ingredient row. Exactly three `;`-delimited fields are
/// accepted; each field is trimmed, and an unparseable hazard level
/// degrades to `0`.
pub fn parse_ingredient_row(line: &str) -> (r: Option<IngredientRecord>)
    ensures
        r is Some <==> split_fields(line@).len() == 3,
        r matches Some(rec) ==> {
            &&& rec.name@ == trimmed(split_fields(line@)[0])
            &&& rec.description@ == trimmed(split_fields(line@)[1])
            &&& rec.hazard_level as int == spec_coerce_i32(trimmed(split_fields(line@)[2]))
        },
{
    let fields = split_on_semicolon(line);
    if fields.len() != 3 {
        return None;
    }
    let name = trim(fields[0].as_str()).to_owned();
    let description = trim(fields[1].as_str()).to_owned();
    let hazard_level = coerce_i32(trim(fields[2].as_str()));
    Some(IngredientRecord { name, description, hazard_level })
}

/// A parsed food row: an optional explicit restaurant reference, the name,
/// the rendered nutrition document, and four boolean flags.
pub struct FoodRecord {
    pub restaurant_ref: Option<i64>,
    pub name: String,
    pub macro_table: String,
    pub is_organic: bool,
    pub is_gluten_free: bool,
    pub is_alcohol_free: bool,
    pub is_lactose_free: bool,
}

/// How many `;`-delimited fields a food row must have: twenty-one with a
/// leading restaurant reference, twenty without one.
pub open spec fn food_field_count(with_restaurant_ref: bool) -> int {
    if with_restaurant_ref {
        21
    } else {
        20
    }
}

/// The nutrition document rendered from a food row's fields, `off` being
/// the position of the name field.
pub open spec fn food_macro_doc(fields: Seq<Seq<char>>, off: int) -> Seq<char> {
    macro_doc(
        spec_coerce_i32(trimmed(fields[off + 1])),
        Seq::new(14, |m: int| trimmed(fields[off + 2 + m])),
    )
}

/// Parses a food row. A row is accepted exactly when its field count
/// matches the mode's expectation; every field is trimmed, an unparseable
/// restaurant reference degrades to `1`, an unparseable energy value to
/// `0`, and an unparseable boolean flag to `false`.
pub fn parse_food_row(line: &str, with_restaurant_ref: bool) -> (r: Option<FoodRecord>)
    ensures
        r is Some <==> split_fields(line@).len() == food_field_count(with_restaurant_ref),
        r matches Some(rec) ==> {
            let fields = split_fields(line@);
            let off: int = if with_restaurant_ref {
                1
            } else {
                0
            };
            &&& rec.restaurant_ref == if with_restaurant_ref {
                Some(spec_coerce_ref(trimmed(fields[0])) as i64)
            } else {
                None::<i64>
            }
            &&& rec.name@ == trimmed(fields[off])
            &&& rec.macro_table@ == food_macro_doc(fields, off)
            &&& rec.is_organic == spec_coerce_bool(trimmed(fields[off + 16]))
            &&& rec.is_gluten_free == spec_coerce_bool(trimmed(fields[off + 17]))
            &&& rec.is_alcohol_free == spec_coerce_bool(trimmed(fields[off + 18]))
            &&& rec.is_lactose_free == spec_coerce_bool(trimmed(fields[off + 19]))
        },
{
    let expected: usize = if with_restaurant_ref {
        21
    } else {
        20
    };
    let fields = split_on_semicolon(line);
    if fields.len() != expected {
        return None;
    }
    let off: usize = if with_restaurant_ref {
        1
    } else {
        0
    };
    let restaurant_ref = if with_restaurant_ref {
        Some(coerce_restaurant_ref(trim(fields[0].as_str())))
    } else {
        None
    };
    let name = trim(fields[off].as_str()).to_owned();
    let energy_kcal = coerce_i32(trim(fields[off + 1].as_str()));
    let mut vals: Vec<String> = Vec::new();
    let mut j: usize = 0;
    while j < 14
        invariant
            j <= 14,
            fields@.len() == food_field_count(with_restaurant_ref),
            off == (if with_restaurant_ref {
                1int
            } else {
                0int
            }),
            forall|m: int|
                0 <= m < fields@.len() ==> (#[trigger] fields@[m])@ == split_fields(line@)[m],
            split_fields(line@).len() == fields@.len(),
            vals@.len() == j as int,
            forall|m: int|
                0 <= m < j ==> (#[trigger] vals@[m])@ == trimmed(split_fields(line@)[off + 2 + m]),
        decreases 14 - j,
    {
        vals.push(trim(fields[off + 2 + j].as_str()).to_owned());
        j += 1;
    }
    let macro_table = build_macro_doc(energy_kcal, &vals);
    proof {
        assert(views_of(vals@) =~= Seq::new(
            14,
            |m: int| trimmed(split_fields(line@)[off as int + 2 + m]),
        ));
    }
    let is_organic = coerce_bool(trim(fields[off + 16].as_str()));
    let is_gluten_free = coerce_bool(trim(fields[off + 17].as_str()));
    let is_alcohol_free = coerce_bool(trim(fields[off + 18].as_str()));
    let is_lactose_free = coerce_bool(trim(fields[off + 19].as_str()));
    Some(
        FoodRecord {
            restaurant_ref,
            name,
            macro_table,
            is_organic,
            is_gluten_free,
            is_alcohol_free,
            is_lactose_free,
        },
    )
}

} // verus!
