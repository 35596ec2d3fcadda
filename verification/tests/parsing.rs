//! Tests for row parsing, field coercion and document rendering.

use db_manager::nutrition::build_macro_doc;
use db_manager::records::{parse_food_row, parse_ingredient_row};
use db_manager::text::{coerce_bool, coerce_i32, coerce_restaurant_ref, split_on_semicolon, trim};

fn food_line(name: &str, energy: &str, decimals: &str, flags: &str) -> String {
    // name;energy;14 decimal fields;4 boolean flags -> 20 fields
    let mut line = String::new();
    line.push_str(name);
    line.push(';');
    line.push_str(energy);
    for _ in 0..14 {
        line.push(';');
        line.push_str(decimals);
    }
    for _ in 0..4 {
        line.push(';');
        line.push_str(flags);
    }
    line
}

#[test]
fn trim_strips_surrounding_whitespace() {
    assert_eq!(trim("  a b \t"), "a b");
    assert_eq!(trim("abc"), "abc");
    assert_eq!(trim(" \t\r\n "), "");
    assert_eq!(trim(""), "");
}

#[test]
fn split_keeps_empty_fields() {
    let fields = split_on_semicolon("a;;b");
    assert_eq!(fields, vec!["a".to_string(), "".to_string(), "b".to_string()]);
    assert_eq!(split_on_semicolon("abc"), vec!["abc".to_string()]);
    assert_eq!(split_on_semicolon(""), vec!["".to_string()]);
    assert_eq!(split_on_semicolon("a;b;"), vec!["a".to_string(), "b".to_string(), "".to_string()]);
}

#[test]
fn integer_coercion_defaults_to_zero() {
    assert_eq!(coerce_i32("abc"), 0);
    assert_eq!(coerce_i32(""), 0);
    assert_eq!(coerce_i32("12.5"), 0);
    assert_eq!(coerce_i32("42"), 42);
    assert_eq!(coerce_i32("-7"), -7);
    assert_eq!(coerce_i32("+9"), 9);
    assert_eq!(coerce_i32("2147483647"), 2147483647);
    assert_eq!(coerce_i32("2147483648"), 0);
    assert_eq!(coerce_i32("-2147483648"), -2147483648);
    assert_eq!(coerce_i32("99999999999999999999999999"), 0);
}

#[test]
fn restaurant_reference_defaults_to_one() {
    assert_eq!(coerce_restaurant_ref("3"), 3);
    assert_eq!(coerce_restaurant_ref("junk"), 1);
    assert_eq!(coerce_restaurant_ref(""), 1);
}

#[test]
fn boolean_coercion_defaults_to_false() {
    assert_eq!(coerce_bool("true"), true);
    assert_eq!(coerce_bool("false"), false);
    assert_eq!(coerce_bool("yes"), false);
    assert_eq!(coerce_bool("TRUE"), false);
    assert_eq!(coerce_bool(""), false);
}

#[test]
fn ingredient_row_needs_three_fields() {
    let rec = parse_ingredient_row("Salt; white crystal ;3").expect("three fields parse");
    assert_eq!(rec.name, "Salt");
    assert_eq!(rec.description, "white crystal");
    assert_eq!(rec.hazard_level, 3);
    assert!(parse_ingredient_row("Salt;desc").is_none());
    assert!(parse_ingredient_row("Salt;desc;3;extra").is_none());
}

#[test]
fn ingredient_hazard_level_defaults_to_zero() {
    let rec = parse_ingredient_row("Salt;desc;high").expect("three fields parse");
    assert_eq!(rec.hazard_level, 0);
}

#[test]
fn food_row_arity_is_checked_exactly() {
    let ok = food_line("Bread", "250", "1.5", "true");
    assert!(parse_food_row(&ok, false).is_some());
    let mut short = String::from("Bread;250");
    for _ in 0..13 {
        short.push_str(";1.5");
    }
    for _ in 0..4 {
        short.push_str(";true");
    }
    assert_eq!(split_on_semicolon(&short).len(), 19);
    assert!(parse_food_row(&short, false).is_none());
    let long = format!("{};extra", ok);
    assert!(parse_food_row(&long, false).is_none());
    // with a leading restaurant reference the same row needs 21 fields
    assert!(parse_food_row(&ok, true).is_none());
    let with_ref = format!("2;{}", ok);
    assert!(parse_food_row(&with_ref, true).is_some());
}

#[test]
fn food_row_reads_reference_name_and_flags() {
    let line = format!("7;{}", food_line(" Bread ", " 250 ", "1.5", "true"));
    let rec = parse_food_row(&line, true).expect("parses");
    assert_eq!(rec.restaurant_ref, Some(7));
    assert_eq!(rec.name, "Bread");
    assert!(rec.is_organic && rec.is_gluten_free && rec.is_alcohol_free && rec.is_lactose_free);
    let rec2 = parse_food_row(&food_line("Jam", "90", "2", "nope"), false).expect("parses");
    assert_eq!(rec2.restaurant_ref, None);
    assert!(!rec2.is_organic && !rec2.is_gluten_free && !rec2.is_alcohol_free && !rec2.is_lactose_free);
}

#[test]
fn unparseable_energy_renders_as_zero() {
    let rec = parse_food_row(&food_line("Bread", "lots", "1.5", "true"), false).expect("parses");
    assert!(rec.macro_table.starts_with("{\"energy_kcal\":0,"));
}

#[test]
fn macro_document_shape_and_order_are_exact() {
    let vals: Vec<String> = vec![
        "1.5", "2", "x", "3.25", "0", "1", "2", "3", "4", "5", "6", "7", "8", "9",
    ]
        .into_iter()
        .map(|s| s.to_string())
        .collect();
    let doc = build_macro_doc(12, &vals);
    let expected = "{\"energy_kcal\":12,\"fat\":{\"per100g\":1.5,\"percentage\":2.0},\"saturated_fat\":{\"per100g\":0.0,\"percentage\":3.25},\"carbohydrates\":{\"per100g\":0.0,\"percentage\":1.0},\"sugars\":{\"per100g\":2.0,\"percentage\":3.0},\"protein\":{\"per100g\":4.0,\"percentage\":5.0},\"fiber\":{\"per100g\":6.0,\"percentage\":7.0},\"salt\":{\"per100g\":8.0,\"percentage\":9.0}}";
    assert_eq!(doc, expected);
}

#[test]
fn macro_document_renders_negative_energy() {
    let vals: Vec<String> = (0..14).map(|_| "0".to_string()).collect();
    let doc = build_macro_doc(-5, &vals);
    assert!(doc.starts_with("{\"energy_kcal\":-5,"));
}
