use phai::amount::{amount_from_text, total, Amount};
use phai::date::{
    default_closed_cards_month, default_scenario_month, first_of_month, iso, length_of_month,
    month_ref, month_ref_for, months_back, parse_month_ref, shift_month, short_date_pt,
    signed_number, Date,
};
use phai::description::{
    compact_token_ascii, description_distance, descriptions_look_related,
    extract_installment_marker, normalize_description, normalize_inline_text,
    strip_installment_marker,
};
use phai::human::{
    bold, capitalize, capitalize_words, category_emoji, category_family, day_month, family_label,
    month_label, progress_bar, reais, short_date, truncate_with_ellipsis, whole_number,
};
use phai::money::{brl, brl_abs, brl_signed, decimal_text, insert_thousands};
use phai::order::{distinct, group_by_key};
use phai::ranking::{find_share, rank, total_by_key};
use phai::sums::{mean, scaled_by, shared_by, total_of_all};
use phai::text::{
    join, less, lines, number, replace_char, split_all, split_once, split_whitespace, trim,
};

fn day(y: i32, m: u32, d: u32) -> Date {
    Date::from_ymd_opt(y, m, d).unwrap()
}

fn list(items: &[&str]) -> Vec<String> {
    items.iter().map(|s| s.to_string()).collect()
}

#[test]
fn amounts_add_up() {
    let v = vec![
        Amount::new(10050, 2),
        Amount::new(-25, 2),
        Amount::new(1, 0),
    ];
    assert_eq!(decimal_text(total(&v)), "101.25");
    assert_eq!(decimal_text(total_of_all(&v)), "101.25");
    assert_eq!(decimal_text(total(&Vec::new())), "0.00");
}

#[test]
fn amounts_are_shared_and_scaled() {
    assert_eq!(decimal_text(shared_by(&Amount::new(100, 0), 3)), "33.33");
    assert_eq!(decimal_text(scaled_by(&Amount::new(125, 2), 4)), "5.00");
    let v = vec![Amount::new(1, 0), Amount::new(2, 0)];
    assert_eq!(decimal_text(mean(&v)), "1.50");
    assert_eq!(
        whole_number(find_share(&Amount::new(1, 0), &Amount::new(8, 0))),
        "12"
    );
}

#[test]
fn halves_round_to_the_even_neighbour() {
    assert_eq!(decimal_text(Amount::new(12345, 3)), "12.34");
    assert_eq!(decimal_text(Amount::new(12355, 3)), "12.36");
    assert_eq!(whole_number(Amount::new(-25, 1)), "-2");
}

#[test]
fn amounts_are_read_from_text() {
    assert_eq!(
        amount_from_text("-12.30").map(decimal_text).ok(),
        Some("-12.30".to_string())
    );
    assert_eq!(
        amount_from_text("abc").map(decimal_text),
        Err("valor inválido: abc".to_string())
    );
    assert!(Amount::new(-1, 2).is_below_zero());
    assert!(!Amount::none().is_above_zero());
    assert_eq!(Amount::new(-7, 0).to_i64(), Some(-7));
    assert_eq!(decimal_text(Amount::new(-7, 0).abs()), "7.00");
    assert_eq!(decimal_text(Amount::new(7, 0).neg()), "-7.00");
}

#[test]
fn money_is_written_in_reais() {
    assert_eq!(brl_signed(Amount::new(-123456, 2)), "-R$ 1.234,56");
    assert_eq!(brl_signed(Amount::new(500, 2)), "+R$ 5,00");
    assert_eq!(brl_abs(Amount::new(-1_000_000, 0)), "R$ 1.000.000,00");
    assert_eq!(reais(Amount::new(-99, 2)), "-R$ 0,99");
    assert_eq!(brl(Amount::new(-123456, 2)), "-R$ 1234,56");
    assert_eq!(insert_thousands("1234567"), "1.234.567");
}

#[test]
fn calendar_counts_leap_years() {
    assert_eq!(length_of_month(2024, 2), 29);
    assert_eq!(length_of_month(2100, 2), 28);
    assert!(Date::from_ymd_opt(2025, 2, 29).is_none());
    assert!(day(2026, 1, 31).is_before(&day(2026, 2, 1)));
    assert_eq!(iso(&day(2026, 5, 3)), "2026-05-03");
    assert_eq!(month_ref_for(&day(2026, 5, 3)), "2026-05");
    assert_eq!(month_ref(&day(2026, 12, 3)), "2026-12");
    assert!(first_of_month(&day(2026, 5, 31)).is_same_day(&day(2026, 5, 1)));
}

#[test]
fn months_are_shifted_and_back_again() {
    let start = parse_month_ref("2026-01").ok().unwrap();
    let moved = shift_month(&start, -14).ok().unwrap();
    assert!(moved.is_same_day(&day(2024, 11, 1)));
    let back = shift_month(&moved, 14).ok().unwrap();
    assert!(back.is_same_day(&start));
    assert_eq!(
        parse_month_ref("maio").map(|d| iso(&d)),
        Err("month inválido: maio (esperado YYYY-MM)".to_string())
    );
    assert_eq!(default_scenario_month(&day(2026, 12, 10)), "2026-12");
    assert_eq!(
        default_closed_cards_month(&day(2026, 1, 10)),
        Ok("2025-12".to_string())
    );
    assert_eq!(months_back(2026, 2, 3), "2025-11");
}

#[test]
fn dates_read_in_portuguese() {
    assert_eq!(short_date(&day(2026, 5, 3)), "03/mai");
    assert_eq!(day_month(&day(2026, 5, 3)), "03/05");
    assert_eq!(short_date_pt(&day(2026, 5, 3)), "03/mai/2026");
    assert_eq!(month_label("2026-05"), "mai/2026");
    assert_eq!(month_label("tudo"), "tudo");
    assert_eq!(signed_number(-3), "-3");
}

#[test]
fn labels_and_bars() {
    assert_eq!(bold("x"), "*x*");
    assert_eq!(capitalize("água"), "Água");
    assert_eq!(capitalize_words("ana maria"), "Ana Maria");
    assert_eq!(category_family("alimentacao:mercado").as_deref(), Some("alimentacao"));
    assert_eq!(category_family("  "), None);
    assert_eq!(family_label("saude"), "Saúde");
    assert_ne!(category_emoji("moradia:luz"), category_emoji("outra"));
    assert_eq!(progress_bar(45), "████░░░░░░");
    assert_eq!(progress_bar(250), "██████████");
    assert_eq!(truncate_with_ellipsis("abcdef", 4), "abc…");
    assert_eq!(truncate_with_ellipsis("abc", 4), "abc");
}

#[test]
fn texts_are_taken_apart() {
    assert_eq!(trim("  a b "), "a b");
    assert_eq!(split_whitespace(" a  b\tc "), list(&["a", "b", "c"]));
    assert_eq!(split_all("a;;b", ';'), list(&["a", "", "b"]));
    assert_eq!(
        split_once("a:b:c", ':'),
        Some(("a".to_string(), "b:c".to_string()))
    );
    assert_eq!(lines("a\r\nb\n"), list(&["a", "b"]));
    assert_eq!(join(&list(&["a", "b"]), ", "), "a, b");
    assert_eq!(replace_char("a-b", '-', " > "), "a > b");
    assert_eq!(number(1024), "1024");
    assert!(less("a", "ab"));
    assert!(!less("b", "ab"));
}

#[test]
fn descriptions_are_normalized() {
    assert_eq!(normalize_inline_text(" a \n b "), "a b");
    assert_eq!(normalize_description("PADARIA*São João"), "padaria s o jo o");
    assert_eq!(compact_token_ascii("Nu-Bank 1"), "nubank1");
    assert_eq!(extract_installment_marker("LOJA X 3/10"), Some("3/10".to_string()));
    assert_eq!(strip_installment_marker("LOJA X 3/10"), "LOJA X");
    assert_eq!(extract_installment_marker("LOJA X"), None);
    assert!(descriptions_look_related("Mercado Livre", "MERCADO LIVRE SP"));
    assert!(!descriptions_look_related("Padaria", "Posto"));
    assert_eq!(
        description_distance("a b", "c d"),
        description_distance("c d", "a b")
    );
}

#[test]
fn keys_are_grouped_in_order() {
    let keys = list(&["b", "a", "b"]);
    assert_eq!(distinct(&keys), list(&["a", "b"]));
    let groups = group_by_key(&keys);
    assert_eq!(groups.len(), 2);
    let (names, totals) = total_by_key(
        &keys,
        &vec![Amount::new(1, 0), Amount::new(2, 0), Amount::new(3, 0)],
    );
    assert_eq!(names, list(&["a", "b"]));
    assert_eq!(decimal_text(totals[1]), "4.00");
    let order = rank(&totals);
    assert_eq!(order[0].at, 1);
}

#[test]
fn the_normal_form_is_its_own_normal_form() {
    let value = "  PÃO  de-Açúcar №7 İstanbul ";
    let once = normalize_description(value);
    assert_eq!(normalize_description(&once), once);
    assert_eq!(normalize_description(&value.to_ascii_uppercase()), once);
    assert!(once.chars().all(|c| c.is_ascii_lowercase() || c.is_ascii_digit() || c == ' '));
    assert!(!once.starts_with(' ') && !once.ends_with(' ') && !once.contains("  "));
    assert_eq!(normalize_description("KELVIN \u{212a}7"), "kelvin k7");
    assert_eq!(normalize_description("***"), "");
}
