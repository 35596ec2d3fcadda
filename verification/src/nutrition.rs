//! The nutrition document: a fixed-shape nested mapping with a top-level
//! `energy_kcal` scalar and seven nutrient groups, each holding `per100g`
//! and `percentage` decimal values taken from consecutive input fields.
//! The field order is a positional contract with downstream readers and is
//! preserved exactly; the document is rendered as structured text (JSON).

use vstd::prelude::*;

use crate::text::{dec_int, format_i64};

verus! {

/// What a decimal field renders to inside the document: the field is parsed
/// as a decimal number (an unparseable field degrades to zero) and the
/// number is rendered as JSON. The result is a function of the field's
/// characters alone.
pub uninterp spec fn json_decimal_of(s: Seq<char>) -> Seq<char>;

/// Relies on `str::parse` to a 64-bit decimal (an unparseable field
/// degrades to zero via `unwrap_or_default`) and on `serde_json`'s number
/// rendering (`Value::to_string`); a non-finite value renders as `null`,
/// as `serde_json` maps it to `Value::Null`.
#[verifier::external_body]
fn decimal_json(s: &str) -> (r: String)
    ensures
        r@ == json_decimal_of(s@),
{
    let value = s.parse().unwrap_or_default();
    match serde_json::Number::from_f64(value) {
        Some(number) => serde_json::Value::Number(number).to_string(),
        None => serde_json::Value::Null.to_string(),
    }
}

/// The views of a sequence of owned strings.
pub open spec fn views_of(vals: Seq<String>) -> Seq<Seq<char>> {
    vals.map_values(|v: String| v@)
}

/// The rendered nutrition document for an energy value and the fourteen
/// decimal fields, two per nutrient group, in their positional order:
/// fat, saturated_fat, carbohydrates, sugars, protein, fiber, salt.
pub open spec fn macro_doc(energy: int, vals: Seq<Seq<char>>) -> Seq<char>
    recommends
        vals.len() == 14,
{
    "{\"energy_kcal\":"@ + dec_int(energy) + ",\"fat\":{\"per100g\":"@ + json_decimal_of(vals[0])
        + ",\"percentage\":"@ + json_decimal_of(vals[1]) + "},\"saturated_fat\":{\"per100g\":"@
        + json_decimal_of(vals[2]) + ",\"percentage\":"@ + json_decimal_of(vals[3])
        + "},\"carbohydrates\":{\"per100g\":"@ + json_decimal_of(vals[4]) + ",\"percentage\":"@
        + json_decimal_of(vals[5]) + "},\"sugars\":{\"per100g\":"@ + json_decimal_of(vals[6])
        + ",\"percentage\":"@ + json_decimal_of(vals[7]) + "},\"protein\":{\"per100g\":"@
        + json_decimal_of(vals[8]) + ",\"percentage\":"@ + json_decimal_of(vals[9])
        + "},\"fiber\":{\"per100g\":"@ + json_decimal_of(vals[10]) + ",\"percentage\":"@
        + json_decimal_of(vals[11]) + "},\"salt\":{\"per100g\":"@ + json_decimal_of(vals[12])
        + ",\"percentage\":"@ + json_decimal_of(vals[13]) + "}}"@
}

/// Assembles the nutrition document from the (already trimmed) decimal
/// fields, rendering each as a JSON number.
pub fn build_macro_doc(energy_kcal: i32, vals: &Vec<String>) -> (r: String)
    requires
        vals@.len() == 14,
    ensures
        r@ == macro_doc(energy_kcal as int, views_of(vals@)),
{
    let mut doc = "{\"energy_kcal\":".to_owned();
    doc.append(format_i64(energy_kcal as i64).as_str());
    doc.append(",\"fat\":{\"per100g\":");
    doc.append(decimal_json(vals[0].as_str()).as_str());
    doc.append(",\"percentage\":");
    doc.append(decimal_json(vals[1].as_str()).as_str());
    doc.append("},\"saturated_fat\":{\"per100g\":");
    doc.append(decimal_json(vals[2].as_str()).as_str());
    doc.append(",\"percentage\":");
    doc.append(decimal_json(vals[3].as_str()).as_str());
    doc.append("},\"carbohydrates\":{\"per100g\":");
    doc.append(decimal_json(vals[4].as_str()).as_str());
    doc.append(",\"percentage\":");
    doc.append(decimal_json(vals[5].as_str()).as_str());
    doc.append("},\"sugars\":{\"per100g\":");
    doc.append(decimal_json(vals[6].as_str()).as_str());
    doc.append(",\"percentage\":");
    doc.append(decimal_json(vals[7].as_str()).as_str());
    doc.append("},\"protein\":{\"per100g\":");
    doc.append(decimal_json(vals[8].as_str()).as_str());
    doc.append(",\"percentage\":");
    doc.append(decimal_json(vals[9].as_str()).as_str());
    doc.append("},\"fiber\":{\"per100g\":");
    doc.append(decimal_json(vals[10].as_str()).as_str());
    doc.append(",\"percentage\":");
    doc.append(decimal_json(vals[11].as_str()).as_str());
    doc.append("},\"salt\":{\"per100g\":");
    doc.append(decimal_json(vals[12].as_str()).as_str());
    doc.append(",\"percentage\":");
    doc.append(decimal_json(vals[13].as_str()).as_str());
    doc.append("}}");
    proof {
        assert(doc@ =~= macro_doc(energy_kcal as int, views_of(vals@)));
    }
    doc
}

} // verus!
