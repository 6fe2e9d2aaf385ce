use phai::amount::Amount;
use phai::categories::{
    category_matches, category_matches_empty_query, category_matches_fuzzy_query, category_score,
    normalize_category_query, rank_categories, show_matches,
};
use phai::date::Date;
use phai::draft::{
    changed_text, editable_tui_view, next_word_cursor, previous_word_cursor, wrap_editable_text,
    ReviewTuiDraft, ReviewTuiField, CATEGORY_POSITION,
};
use phai::keys::{KeyCode, KeyEvent};
use phai::metadata::{Json, JsonField};
use phai::records::{AccountRecord, TransactionRecord};
use phai::review::{
    category_parts, collect_available_months, effective_review_human_limit, owner_accounts,
    review_filter_category, review_human_fetch_limit, review_human_rows_all, review_queue,
    review_tui_raw_hour, review_tui_time_only, review_window, time_text, ReviewFilters,
};
use phai::review_flow::handle_review_tui_event;
use phai::review_save::{
    apply_optimistic_summary_decrement, apply_review_tui_patch_to_local_rows, bulk_key,
    fresh_drafts, plan_human_review, plan_save, poll_review_tui_pending_saves, prompt_question,
    prompt_value, remember_recent_category, review_human_summary, similar_rows, PromptValue,
    updates_anatomy, SaveOutcome,
};
use phai::review_session::{
    apply_review_tui_category_pick, review_tui_filters_from_menu_key,
    review_tui_plain_skip_requested, ReviewEffect, ReviewTuiSession,
};
use phai::review_view::{
    amount_tui_style, category_tui_label, draw_review_tui_queue, non_empty_text,
    review_tui_detail_lines, review_tui_details_start, review_tui_footer_status_line,
    review_tui_key_hints, visible_range,
};
use phai::screen::{clip_tui_text, pad_end, pad_start, Color};
use phai::transactions::{
    is_asked, launch_filters, review_launch_step, take_answer, AnswerStep, LaunchStage, LaunchStep,
    ReviewHumanKind,
};

fn day(y: i32, m: u32, d: u32) -> Date {
    Date::from_ymd_opt(y, m, d).unwrap()
}

fn list(items: &[&str]) -> Vec<String> {
    items.iter().map(|s| s.to_string()).collect()
}

fn sample_review_row(category_id: &str) -> TransactionRecord {
    TransactionRecord {
        transaction_id: "tx-1".to_string(),
        account_id: None,
        transaction_date: day(2026, 5, 1),
        raw_description: "COMPRA MERCADO".to_string(),
        description: None,
        merchant_name: None,
        purpose: None,
        amount: Amount::new(-4200, 2),
        tx_type: "debit".to_string(),
        category_id: Some(category_id.to_string()),
        category_source: "manual".to_string(),
        context: None,
        classifier_trace: None,
        payment_status: "posted".to_string(),
        source: "manual".to_string(),
        actor_id: "test".to_string(),
        idempotency_key: "tx-1".to_string(),
        metadata_json: Json::Object(Vec::new()),
    }
}

fn row(id: &str, date: Date, cents: i64) -> TransactionRecord {
    let mut r = sample_review_row("alimentacao:mercado");
    r.transaction_id = id.to_string();
    r.transaction_date = date;
    r.amount = Amount::new(cents, 2);
    r
}

fn ids(rows: &[TransactionRecord]) -> Vec<String> {
    rows.iter().map(|r| r.transaction_id.clone()).collect()
}

fn session() -> ReviewTuiSession {
    ReviewTuiSession::new(
        &sample_review_row("alimentacao:mercado"),
        ReviewFilters::none(),
        list(&["2026-05", "2026-04"]),
        false,
    )
}

#[test]
fn category_matches_rank_fuzzy_typos() {
    let categories = vec![
        "educacao:material".to_string(),
        "alimentacao:mercado".to_string(),
        "transporte:app".to_string(),
    ];

    let matches = category_matches(&categories, "mercdo", 0, &Vec::new());

    assert_eq!(
        matches.first().map(String::as_str),
        Some("alimentacao:mercado")
    );
}

#[test]
fn effective_review_human_limit_defaults_by_mode() {
    assert_eq!(effective_review_human_limit(None, false), 10);
    assert_eq!(effective_review_human_limit(None, true), 500);
    assert_eq!(effective_review_human_limit(Some(42), true), 42);
}

#[test]
fn category_matches_prioritize_recent_for_empty_query() {
    let categories = vec![
        "alimentacao:mercado".to_string(),
        "educacao:material".to_string(),
        "transporte:app".to_string(),
    ];
    let recent = vec!["transporte:app".to_string()];

    let matches = category_matches(&categories, "", 0, &recent);

    assert_eq!(matches.first().map(String::as_str), Some("transporte:app"));
}

#[test]
fn apply_review_tui_category_pick_keeps_draft_on_bare_enter() {
    let categories = vec![
        "alimentacao:mercado".to_string(),
        "transporte:app".to_string(),
    ];
    let recent = vec!["transporte:app".to_string()];
    let mut draft = ReviewTuiDraft::from_row(&sample_review_row("alimentacao:mercado"));

    apply_review_tui_category_pick(&mut draft, &categories, &recent, 0);

    assert_eq!(draft.category_id, "alimentacao:mercado");
}

#[test]
fn apply_review_tui_category_pick_uses_recent_when_cursor_moves() {
    let categories = vec![
        "alimentacao:mercado".to_string(),
        "transporte:app".to_string(),
    ];
    let recent = vec!["transporte:app".to_string()];
    let mut draft = ReviewTuiDraft::from_row(&sample_review_row("alimentacao:mercado"));

    apply_review_tui_category_pick(&mut draft, &categories, &recent, 1);

    assert_eq!(draft.category_id, "alimentacao:mercado");
}

#[test]
fn changed_text_allows_clearing_existing_value() {
    assert_eq!(changed_text("", Some("Texto antigo")), Some(String::new()));
    assert_eq!(changed_text("", None), None);
}

#[test]
fn review_tui_plain_skip_blocks_category_field_and_pending_edits() {
    let row = sample_review_row("alimentacao:mercado");
    let mut draft = ReviewTuiDraft::from_row(&row);
    draft.active = CATEGORY_POSITION;
    let skip = KeyEvent::plain(KeyCode::Char('s'));

    assert!(!review_tui_plain_skip_requested(skip, &row, &draft));

    draft.merchant_name = "Mercado Exemplo".to_string();
    assert!(!review_tui_plain_skip_requested(skip, &row, &draft));

    draft = ReviewTuiDraft::from_row(&row);
    draft.active = 0;
    assert!(review_tui_plain_skip_requested(skip, &row, &draft));
}

#[test]
fn review_tui_filter_menu_keys_apply_current_row_filters_and_clear() {
    let mut row = sample_review_row("alimentacao:mercado");
    row.account_id = Some("conta_teste".to_string());
    row.merchant_name = Some("Mercado Exemplo".to_string());
    let empty = ReviewFilters::none();

    let month_direct =
        review_tui_filters_from_menu_key(KeyEvent::plain(KeyCode::Char('m')), &row, &empty);
    assert!(
        month_direct.is_none(),
        "'m' should return None (handled by month picker)"
    );

    let account =
        review_tui_filters_from_menu_key(KeyEvent::plain(KeyCode::Char('a')), &row, &empty)
            .expect("account filter");
    assert_eq!(account.account_id.as_deref(), Some("conta_teste"));

    let merchant =
        review_tui_filters_from_menu_key(KeyEvent::plain(KeyCode::Char('e')), &row, &account)
            .expect("merchant filter");
    assert_eq!(merchant.merchant.as_deref(), Some("Mercado Exemplo"));

    let cleared =
        review_tui_filters_from_menu_key(KeyEvent::plain(KeyCode::Char('0')), &row, &merchant)
            .expect("clear filters");
    assert!(cleared.is_empty());
}

#[test]
fn fuzzy_search_drops_what_does_not_match() {
    let categories = list(&["moradia:aluguel", "alimentacao:mercado"]);
    assert_eq!(
        category_matches_fuzzy_query(&categories, "zzz", &Vec::new()),
        Vec::<String>::new()
    );
    assert_eq!(
        category_matches_fuzzy_query(&categories, "aluguel", &Vec::new()),
        list(&["moradia:aluguel"])
    );
}

#[test]
fn fuzzy_ranking_puts_the_best_score_first() {
    let categories = list(&["a", "b", "c"]);
    let ranked = rank_categories(
        &categories,
        &vec![Some(10), None, Some(40)],
        "x",
        &Vec::new(),
    );
    assert_eq!(ranked, list(&["c", "a"]));
    assert_eq!(category_score("b", "x", &Vec::new(), None), None);
}

#[test]
fn an_empty_query_offers_recent_categories_first() {
    let all = list(&["a", "b", "c"]);
    let recent = list(&["c", "x"]);
    let shown = category_matches_empty_query(&all, &recent);
    assert_eq!(shown, list(&["c", "x", "a", "b"]));
    assert!(show_matches(&shown, 0).len() <= shown.len());
}

#[test]
fn queries_are_normalized() {
    assert_eq!(normalize_category_query("  Mercado "), "mercado");
}

#[test]
fn typing_and_erasing_leaves_the_text() {
    let row = sample_review_row("alimentacao:mercado");
    let mut draft = ReviewTuiDraft::from_row(&row);
    draft.set_active(0);
    draft.insert_char('M');
    draft.insert_char('á');
    assert_eq!(draft.merchant_name, "Má");
    assert!(draft.has_changes_from(&row));
    draft.backspace_char();
    draft.backspace_char();
    assert_eq!(draft.merchant_name, "");
    assert!(!draft.has_changes_from(&row));
    draft.backspace_char();
    assert_eq!(draft.active_cursor(), 0);
}

#[test]
fn cursor_moves_by_words() {
    assert_eq!(previous_word_cursor("um dois", 7), 3);
    assert_eq!(next_word_cursor("um dois", 0), 3);
    let mut draft = ReviewTuiDraft::from_row(&sample_review_row("x"));
    draft.set_active(0);
    draft.merchant_name = "um dois".to_string();
    draft.move_cursor_end();
    assert_eq!(draft.active_cursor(), 7);
    draft.move_cursor_word_left();
    assert_eq!(draft.active_cursor(), 3);
    draft.delete_char();
    assert_eq!(draft.merchant_name, "um ois");
    draft.move_cursor_home();
    assert_eq!(draft.active_cursor(), 0);
}

#[test]
fn a_fresh_draft_changes_nothing() {
    let row = sample_review_row("alimentacao:mercado");
    let draft = ReviewTuiDraft::from_row(&row);
    assert!(!draft.patch_against(&row).has_changes());
    assert_eq!(draft.field(), ReviewTuiField::Category);
}

#[test]
fn wide_text_is_cut_and_wrapped() {
    let (shown, cursor) = editable_tui_view("abcdef", 6, 4);
    assert!(shown.chars().count() <= 4);
    assert!(cursor <= 4);
    let (lines, place) = wrap_editable_text("abcdef", 6, 4);
    assert!(lines.iter().all(|l| l.chars().count() <= 4));
    assert!(place.0 < lines.len());
    assert_eq!(clip_tui_text("abcdef", 4).chars().count(), 4);
    assert_eq!(pad_end("ab", 4), "ab  ");
    assert_eq!(pad_start("ab", 4), "  ab");
}

#[test]
fn categories_split_at_the_colon() {
    assert_eq!(
        category_parts("alimentacao:mercado"),
        ("alimentacao".to_string(), Some("mercado".to_string()))
    );
    assert_eq!(category_parts("moradia"), ("moradia".to_string(), None));
}

#[test]
fn filters_narrow_a_queue() {
    let mut filters = ReviewFilters::none();
    assert!(filters.is_empty());
    filters.month = Some("2026-05".to_string());
    let rows = vec![
        row("a", day(2026, 5, 1), -100),
        row("b", day(2026, 4, 30), -900),
        row("c", day(2026, 5, 1), -300),
    ];
    let queue = review_queue(rows, &filters, &None, 10);
    assert_eq!(ids(&queue), list(&["c", "a"]));
    assert!(filters.summary().contains("2026-05"));
}

#[test]
fn filters_of_an_owner_use_the_accounts() {
    let account = |id: &str, owner: &str| AccountRecord {
        account_id: id.to_string(),
        owner: owner.to_string(),
        account_type: "checking".to_string(),
        bank: String::new(),
        label: String::new(),
        pluggy_account_id: None,
        pluggy_item_id: None,
        status: "active".to_string(),
        actor_id: "eu".to_string(),
        idempotency_key: String::new(),
        metadata_json: Json::Null,
    };
    let accounts = vec![account("x", "aline"), account("y", "felipe")];
    assert_eq!(owner_accounts(&accounts, "aline").ok(), Some(list(&["x"])));
    assert!(owner_accounts(&accounts, "ninguem").is_err());
    let mut filters = ReviewFilters::none();
    filters.owner = Some("aline".to_string());
    filters.owner_accounts = Some(list(&["x"]));
    let mut r = sample_review_row("x");
    assert!(!filters.matches(&r));
    r.account_id = Some("x".to_string());
    assert!(filters.matches(&r));
}

#[test]
fn filter_category_comes_from_the_right_argument() {
    let none: Option<String> = None;
    let a = Some("a".to_string());
    let b = Some("b".to_string());
    assert_eq!(review_filter_category(&none, &none, &b), &b);
    assert_eq!(review_filter_category(&none, &a, &b), &a);
    assert_eq!(review_filter_category(&a, &none, &b), &none);
}

#[test]
fn fetch_limit_grows_with_filters() {
    let empty = ReviewFilters::none();
    assert_eq!(review_human_fetch_limit(7, &empty), 7);
    let mut filters = ReviewFilters::none();
    filters.month = Some("2026-05".to_string());
    assert_eq!(review_human_fetch_limit(10, &filters), 500);
    assert_eq!(review_human_fetch_limit(200, &filters), 5000);
}

#[test]
fn queues_are_joined_without_repeats() {
    let rows = vec![
        row("a", day(2026, 5, 1), -1),
        row("b", day(2026, 5, 1), -1),
        row("a", day(2026, 5, 1), -1),
        row("c", day(2026, 5, 1), -1),
    ];
    assert_eq!(ids(&review_human_rows_all(rows, 2)), list(&["a", "b"]));
}

#[test]
fn months_offered_hold_the_last_year() {
    let months = collect_available_months(&vec![row("a", day(2020, 1, 1), -1)], &day(2026, 2, 10));
    assert_eq!(months[0], "2026-02");
    assert_eq!(months[1], "2026-01");
    assert_eq!(months.last().map(String::as_str), Some("2020-01"));
    assert_eq!(months.len(), 14);
}

#[test]
fn review_window_of_a_month() {
    let (from, to) = review_window(&Some("2026-02".to_string()), &day(2026, 5, 10));
    assert!(from.is_same_day(&day(2026, 2, 1)));
    assert!(to.is_same_day(&day(2026, 2, 28)));
}

#[test]
fn time_of_day_is_read() {
    assert_eq!(review_tui_time_only("2026-05-01T13:45:00Z"), "13:45");
    assert_eq!(time_text("2026-05-01 13:45:10", None), "13:45");
    let mut r = sample_review_row("x");
    r.metadata_json = Json::Object(vec![JsonField {
        name: "raw".to_string(),
        value: Json::Object(vec![JsonField {
            name: "date".to_string(),
            value: Json::Text("2026-05-01T13:45:00Z".to_string()),
        }]),
    }]);
    assert_eq!(review_tui_raw_hour(&r), Some("13:45".to_string()));
}

#[test]
fn control_keys_of_a_review() {
    let rows = vec![sample_review_row("alimentacao:mercado")];
    let categories = list(&["alimentacao:mercado"]);
    let mut s = session();
    s.focus_queue = false;
    let mut d = ReviewTuiDraft::from_row(&rows[0]);
    d.set_active(0);
    let exit = handle_review_tui_event(
        KeyEvent::with_control(KeyCode::Char('x')),
        &mut s,
        &mut d,
        &rows,
        &categories,
    );
    assert!(matches!(exit, ReviewEffect::Exit));
    let save = handle_review_tui_event(
        KeyEvent::with_control(KeyCode::Char('s')),
        &mut s,
        &mut d,
        &rows,
        &categories,
    );
    assert!(matches!(save, ReviewEffect::Save));
    let typed = handle_review_tui_event(
        KeyEvent::plain(KeyCode::Char('z')),
        &mut s,
        &mut d,
        &rows,
        &categories,
    );
    assert!(matches!(typed, ReviewEffect::Stay));
    assert_eq!(d.merchant_name, "z");
    assert_eq!(s.index, 0);
}

#[test]
fn last_category_comes_first_among_the_recent() {
    let mut s = session();
    for c in ["a", "b", "c", "d", "e", "f", "b"] {
        remember_recent_category(&mut s, Some(c.to_string()));
    }
    assert_eq!(s.recent_categories, list(&["b", "f", "e", "d", "c"]));
    assert_eq!(s.last_category_id.as_deref(), Some("b"));
}

#[test]
fn saving_plans_the_change() {
    let r = sample_review_row("alimentacao:mercado");
    let s = session();
    let mut d = ReviewTuiDraft::from_row(&r);
    assert!(plan_save(&s, &d, &r).is_none());
    d.description = "Compras".to_string();
    let plan = plan_save(&s, &d, &r).unwrap();
    assert_eq!(plan.patch.description.as_deref(), Some("Compras"));
    assert_eq!(plan.patch.merchant_name, None);
    assert_eq!(plan.ids, list(&["tx-1"]));
}

#[test]
fn a_saved_patch_reaches_the_rows() {
    let mut rows = vec![row("a", day(2026, 5, 1), -1), row("b", day(2026, 5, 1), -1)];
    let mut drafts = fresh_drafts(&rows);
    let mut d = ReviewTuiDraft::from_row(&rows[0]);
    d.purpose = "casa".to_string();
    let patch = d.patch_against(&rows[0]);
    apply_review_tui_patch_to_local_rows(&mut rows, &mut drafts, &list(&["b"]), &patch);
    assert_eq!(rows[0].purpose, None);
    assert_eq!(rows[1].purpose.as_deref(), Some("casa"));
    assert_eq!(drafts[1].purpose, "casa");
}

#[test]
fn a_saved_draft_changes_nothing_more() {
    let mut rows = vec![row("a", day(2026, 5, 1), -1)];
    let mut drafts = fresh_drafts(&rows);
    let mut d = ReviewTuiDraft::from_row(&rows[0]);
    d.purpose = " casa ".to_string();
    d.merchant_name = "Loja".to_string();
    let patch = d.patch_against(&rows[0]);
    apply_review_tui_patch_to_local_rows(&mut rows, &mut drafts, &list(&["a"]), &patch);
    assert!(!d.patch_against(&rows[0]).has_changes());
}

#[test]
fn a_queue_keeps_to_its_limit_and_filters() {
    let rows = || {
        vec![
            row("a", day(2026, 5, 1), -100),
            row("b", day(2026, 5, 2), -5_000),
            row("c", day(2026, 5, 3), -900),
        ]
    };
    let none = ReviewFilters::none();
    assert!(rows().iter().all(|r| none.matches(r)));
    assert_eq!(review_queue(rows(), &none, &None, 2).len(), 2);
    let large = review_queue(rows(), &none, &Some(Amount::new(30, 0)), 10);
    assert_eq!(ids(&large), list(&["b"]));
}

#[test]
fn similar_rows_share_the_key() {
    let a = row("a", day(2026, 5, 1), -1);
    let mut b = row("b", day(2026, 5, 2), -1);
    b.raw_description = "OUTRA COISA".to_string();
    let key = bulk_key(&a);
    assert_eq!(ids(&similar_rows(vec![a, b], &key)), list(&["a"]));
}

#[test]
fn review_needs_a_change_and_a_transaction() {
    let r = sample_review_row("x");
    let mut d = ReviewTuiDraft::from_row(&r);
    let nothing = d.patch_against(&r);
    assert!(plan_human_review("tx-1", &nothing, Some(&r), "u").is_err());
    d.description = "novo".to_string();
    let patch = d.patch_against(&r);
    assert!(plan_human_review("tx-1", &patch, None, "u").is_err());
    let (done, entry) = plan_human_review("tx-1", &patch, Some(&r), "u").ok().unwrap();
    assert_eq!(entry.idempotency_key, "review-human:tx-1:u");
    assert!(done.updated_description);
    assert!(updates_anatomy(&patch));
    assert!(!updates_anatomy(&nothing));
    assert!(!done.updated_category);
}

#[test]
fn summary_counts_what_is_left() {
    let mut s = review_human_summary(1, 2, 3, 4, Amount::new(50, 0), 10);
    assert_eq!(s.total_attention_count, 10);
    assert_eq!(s.min_purpose_amount, "50.00");
    assert_eq!(
        s.suggested_next_command,
        "tx review-human --kind all --limit 10 --json"
    );
    let r = sample_review_row("x");
    let mut d = ReviewTuiDraft::from_row(&r);
    d.description = "a".to_string();
    apply_optimistic_summary_decrement(&mut s, &d.patch_against(&r), 1);
    assert_eq!(s.missing_description_count, 1);
}

#[test]
fn ended_saves_change_the_status() {
    let mut s = session();
    s.pending_save_count = 1;
    let played = poll_review_tui_pending_saves(
        &mut s,
        &vec![SaveOutcome::Saved {
            count: 2,
            sound: true,
        }],
        0,
    );
    assert!(played);
    assert_eq!(s.pending_save_count, 0);
    poll_review_tui_pending_saves(
        &mut s,
        &vec![SaveOutcome::Failed {
            label: "x".to_string(),
            error: "quebrou".to_string(),
        }],
        0,
    );
    assert!(s.last_save_error.is_some());
}

#[test]
fn prompts_read_words() {
    assert!(matches!(prompt_value("  \n"), PromptValue::Keep));
    assert!(matches!(prompt_value("q"), PromptValue::Quit));
    assert!(matches!(prompt_value("pular"), PromptValue::Skip));
    assert!(matches!(prompt_value(" casa "), PromptValue::Value(v) if v == "casa"));
    assert_eq!(
        prompt_question("merchant", &Some("Bar".to_string())),
        "merchant [Bar]: "
    );
    assert_eq!(prompt_question("merchant", &None), "merchant: ");
}

#[test]
fn answers_build_a_patch() {
    let r = sample_review_row("x");
    assert!(is_asked(ReviewHumanKind::All, &r, ReviewTuiField::Purpose));
    assert!(!is_asked(ReviewHumanKind::Merchant, &r, ReviewTuiField::Purpose));
    assert!(is_asked(ReviewHumanKind::Merchant, &r, ReviewTuiField::Category));
    let empty = ReviewTuiDraft::from_row(&r).patch_against(&r);
    let step = take_answer(
        empty,
        ReviewTuiField::Purpose,
        PromptValue::Value("casa".to_string()),
    );
    match step {
        AnswerStep::Next(p) => assert_eq!(p.purpose.as_deref(), Some("casa")),
        _ => panic!("the answer is kept"),
    }
}

#[test]
fn review_opens_on_what_there_is() {
    let (filters, filled) = launch_filters(ReviewFilters::none(), true, "2026-05");
    assert!(filled);
    assert_eq!(filters.month.as_deref(), Some("2026-05"));
    assert!(matches!(
        review_launch_step(LaunchStage::Asked, false, true, "2026-05"),
        LaunchStep::FetchPending
    ));
    match review_launch_step(LaunchStage::Pending, true, true, "2026-05") {
        LaunchStep::Open(reviewed, note) => {
            assert!(!reviewed);
            assert_eq!(
                note.as_deref(),
                Some("sem pendências em 2026-05, mostrando todas as pendências")
            );
        }
        _ => panic!("it opens"),
    }
    assert!(matches!(
        review_launch_step(LaunchStage::Everything, false, true, "2026-05"),
        LaunchStep::Nothing(_)
    ));
}

#[test]
fn queue_lines_mark_the_selected_row() {
    let rows = vec![row("a", day(2026, 5, 1), -1234), row("b", day(2026, 5, 2), 50)];
    let lines = draw_review_tui_queue(&rows, 1, 10, 80);
    assert_eq!(lines.len(), 2);
    assert_ne!(lines[0].style, lines[1].style);
    assert_eq!(amount_tui_style(rows[0].amount).fg, Color::LightRed);
    let (from, to) = visible_range(5, 10, 4);
    assert!(from <= 5 && 5 < to && to - from <= 4);
}

#[test]
fn details_are_searched_and_scrolled() {
    let found = review_tui_detail_lines("um\ndois\ntres", "DOIS");
    assert_eq!(found, list(&["dois"]));
    assert_eq!(review_tui_details_start(9, 5, 3), 2);
    assert_eq!(
        review_tui_footer_status_line("").text,
        "Campos raw são somente leitura."
    );
    assert_eq!(
        non_empty_text(&Some(" a ".to_string())),
        Some("a".to_string())
    );
    assert_eq!(non_empty_text(&Some("  ".to_string())), None);
    assert_eq!(review_tui_key_hints().len(), 26);
    assert!(!category_tui_label(&sample_review_row("moradia")).is_empty());
}

#[test]
fn long_categories_are_searched_with_short_queries() {
    let long = "a".repeat(3000);
    let categories = vec!["mercado".to_string(), long.clone()];
    assert_eq!(
        category_matches(&categories, "aaaa", 0, &Vec::new()),
        vec![long]
    );
}
