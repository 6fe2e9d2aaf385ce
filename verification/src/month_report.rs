//! The cash flow of a month: details, card summary, balances.

use crate::amount::{limit, magnitude, minus, one, sum_of, zero, Amount};
use crate::card_bills::{
    bill_views, bill_within, bills_within, cashflow_card_bill_details, first_without_cycle,
    BillSource, CashflowCardBillDetail,
};
use crate::cashflow::{
    actual_amounts, add_to_group, apart, by_category, cashflow_forecast_groups,
    collect_cashflow_actual_parts, combine_cashflow_rows, combined, content_of, forecast_groups,
    gains, groups_of_kind, item_views, lemma_appended, lemma_by_category, lemma_no_groups,
    lists_groups, losses, ordered_content, planned_amounts, rows_fit, size_of,
    sorted_cashflow_groups, sum_in_range, summarize_forecast_groups, tx_amounts, with_more, within,
    CashflowCategoryGroup, CashflowDetailItem, FlowKind, ForecastVsActualRow, GroupContent,
};
use crate::date::{date_of, iso_text, Date};
use crate::description::{strip_token, stripped};
use crate::metadata::{parse_u32, parsed_u32};
use crate::order::{sort, sorted, Ranked};
use crate::records::{opt_clone, AccountRecord};
use crate::scenario::CashflowRow;
use crate::summary::AccountSnapshotRecord;
use crate::sums::{full_weight, lemma_weight_take, total_of_all};
use crate::text::{
    chars, from_chars, lemma_precedes_asymmetric, lemma_precedes_irreflexive, lemma_precedes_total,
    lemma_precedes_transitive, less, precedes, same, split_at_char, split_once, split_whitespace,
    texts, words,
};
use vstd::prelude::*;

verus! {

// ---------------------------------------------------------------------------
// What card bills add to the expenses

/// What a category gets.
pub struct Share {
    pub category_id: String,
    pub subtotal: Amount,
    pub transactions: u64,
    pub items: Vec<CashflowDetailItem>,
}

impl View for Share {
    type V = (Seq<char>, GroupContent);

    open spec fn view(&self) -> (Seq<char>, GroupContent) {
        (
            self.category_id@,
            GroupContent {
                subtotal: self.subtotal,
                transactions: self.transactions,
                items: item_views(self.items@),
            },
        )
    }
}

pub open spec fn share_views(shares: Seq<Share>) -> Seq<(Seq<char>, GroupContent)> {
    shares.map_values(|s: Share| s@)
}

/// A line of a bill as a share of its category.
pub open spec fn share_of_item(category: Seq<char>, item: CashflowDetailItem) -> (
    Seq<char>,
    GroupContent,
) {
    (category, GroupContent { subtotal: item.amount, transactions: 1, items: seq![item@] })
}

/// The lines of a group, each a share of its category.
pub open spec fn listed_shares(group: CashflowCategoryGroup) -> Seq<(Seq<char>, GroupContent)> {
    if group.transactions == 0 {
        Seq::empty()
    } else {
        group.items@.map_values(
            |item: CashflowDetailItem| share_of_item(group.category_id@, item),
        )
    }
}

/// Groups as shares without their lines.
pub open spec fn total_shares(groups: Seq<CashflowCategoryGroup>) -> Seq<
    (Seq<char>, GroupContent),
> {
    groups.map_values(
        |g: CashflowCategoryGroup|
            (
                g.category_id@,
                GroupContent {
                    subtotal: g.subtotal,
                    transactions: g.transactions,
                    items: Seq::empty(),
                },
            ),
    )
}

/// What a bill adds to the expenses: installments and subscriptions line by line, the
/// other categories as totals.
pub open spec fn bill_shares(bill: CashflowCardBillDetail) -> Seq<(Seq<char>, GroupContent)> {
    listed_shares(bill.installments) + listed_shares(bill.subscriptions) + total_shares(
        bill.other_categories@,
    )
}

/// What bills add to the expenses.
pub open spec fn shares_of(bills: Seq<CashflowCardBillDetail>) -> Seq<(Seq<char>, GroupContent)>
    decreases bills.len(),
{
    if bills.len() == 0 {
        Seq::empty()
    } else {
        shares_of(bills.drop_last()) + bill_shares(bills.last())
    }
}

/// The shares by category.
pub open spec fn gathered(shares: Seq<(Seq<char>, GroupContent)>) -> Map<Seq<char>, GroupContent>
    decreases shares.len(),
{
    if shares.len() == 0 {
        Map::empty()
    } else {
        with_more(gathered(shares.drop_last()), shares.last().0, shares.last().1)
    }
}

pub open spec fn share_amounts(shares: Seq<(Seq<char>, GroupContent)>) -> Seq<Amount> {
    shares.map_values(|s: (Seq<char>, GroupContent)| s.1.subtotal)
}

pub open spec fn share_count(shares: Seq<(Seq<char>, GroupContent)>) -> int
    decreases shares.len(),
{
    if shares.len() == 0 {
        0
    } else {
        share_count(shares.drop_last()) + shares.last().1.transactions
    }
}

/// Whether shares can be added up.
pub open spec fn shares_fit(shares: Seq<(Seq<char>, GroupContent)>) -> bool {
    &&& full_weight(share_amounts(shares)) <= limit()
    &&& share_count(shares) <= u64::MAX
}

fn copy_item(item: &CashflowDetailItem) -> (r: CashflowDetailItem)
    ensures
        r == *item,
{
    CashflowDetailItem {
        description: item.description.clone(),
        amount: item.amount,
        category_id: opt_clone(&item.category_id),
        account_id: opt_clone(&item.account_id),
        transaction_id: opt_clone(&item.transaction_id),
        transaction_date: item.transaction_date,
        source: item.source.clone(),
    }
}

fn push_listed(out: &mut Vec<Share>, group: &CashflowCategoryGroup)
    ensures
        share_views(final(out)@) == share_views(old(out)@) + listed_shares(*group),
{
    let ghost before = share_views(out@);
    let ghost want = listed_shares(*group);
    if group.transactions == 0 {
        assert(before + want =~= before);
        return;
    }
    let mut k: usize = 0;
    assert(before + want.take(0) =~= before);
    while k < group.items.len()
        invariant
            k <= group.items.len(),
            group.transactions != 0,
            want == listed_shares(*group),
            share_views(out@) == before + want.take(k as int),
        decreases group.items.len() - k,
    {
        let ghost was = out@;
        let item = copy_item(&group.items[k]);
        let amount = item.amount;
        let ghost the_item = item;
        let mut items: Vec<CashflowDetailItem> = Vec::new();
        items.push(item);
        assert(item_views(items@) =~= seq![the_item@]);
        let share = Share {
            category_id: group.category_id.clone(),
            subtotal: amount,
            transactions: 1,
            items,
        };
        out.push(share);
        assert(share@ == want[k as int]);
        assert(share_views(out@) =~= share_views(was).push(share@));
        assert(want.take(k + 1) =~= want.take(k as int).push(want[k as int]));
        assert(before + want.take(k + 1) =~= (before + want.take(k as int)).push(want[k as int]));
        k = k + 1;
    }
    assert(want.take(k as int) =~= want);
}

fn push_totals(out: &mut Vec<Share>, groups: &Vec<CashflowCategoryGroup>)
    ensures
        share_views(final(out)@) == share_views(old(out)@) + total_shares(groups@),
{
    let ghost before = share_views(out@);
    let ghost want = total_shares(groups@);
    let mut k: usize = 0;
    assert(before + want.take(0) =~= before);
    while k < groups.len()
        invariant
            k <= groups.len(),
            want == total_shares(groups@),
            share_views(out@) == before + want.take(k as int),
        decreases groups.len() - k,
    {
        let ghost was = out@;
        let items: Vec<CashflowDetailItem> = Vec::new();
        let share = Share {
            category_id: groups[k].category_id.clone(),
            subtotal: groups[k].subtotal,
            transactions: groups[k].transactions,
            items,
        };
        assert(share@.1.items =~= want[k as int].1.items);
        out.push(share);
        assert(share_views(out@) =~= share_views(was).push(share@));
        assert(before + want.take(k + 1) =~= (before + want.take(k as int)).push(want[k as int]));
        k = k + 1;
    }
    assert(want.take(k as int) =~= want);
}

fn list_shares(bills: &Vec<CashflowCardBillDetail>) -> (r: Vec<Share>)
    ensures
        share_views(r@) == shares_of(bills@),
{
    let mut out: Vec<Share> = Vec::new();
    let mut i: usize = 0;
    assert(bills@.take(0) =~= Seq::<CashflowCardBillDetail>::empty());
    assert(share_views(out@) =~= Seq::<(Seq<char>, GroupContent)>::empty());
    while i < bills.len()
        invariant
            i <= bills.len(),
            share_views(out@) == shares_of(bills@.take(i as int)),
        decreases bills.len() - i,
    {
        assert(bills@.take(i + 1).drop_last() =~= bills@.take(i as int));
        let ghost before = share_views(out@);
        push_listed(&mut out, &bills[i].installments);
        push_listed(&mut out, &bills[i].subscriptions);
        push_totals(&mut out, &bills[i].other_categories);
        assert(share_views(out@) =~= before + bill_shares(bills@[i as int]));
        i = i + 1;
    }
    assert(bills@.take(i as int) =~= bills@);
    out
}

proof fn lemma_share_count_take(shares: Seq<(Seq<char>, GroupContent)>, k: int)
    requires
        0 <= k <= shares.len(),
    ensures
        0 <= share_count(shares.take(k)) <= share_count(shares),
    decreases shares.len() - k, k,
{
    if k > 0 {
        assert(shares.take(k).drop_last() =~= shares.take(k - 1));
    }
    if k == shares.len() {
        assert(shares.take(k) =~= shares);
        lemma_share_count_nonnegative(shares);
    } else {
        lemma_share_count_take(shares, k + 1);
        assert(shares.take(k + 1).drop_last() =~= shares.take(k));
        lemma_share_count_nonnegative(shares.take(k));
    }
}

proof fn lemma_share_count_nonnegative(shares: Seq<(Seq<char>, GroupContent)>)
    ensures
        0 <= share_count(shares),
    decreases shares.len(),
{
    if shares.len() > 0 {
        lemma_share_count_nonnegative(shares.drop_last());
    }
}

fn gather(shares: Vec<Share>) -> (r: Vec<CashflowCategoryGroup>)
    requires
        shares_fit(share_views(shares@)),
    ensures
        apart(r@),
        by_category(r@) == gathered(share_views(shares@)),
        within(
            r@,
            full_weight(share_amounts(share_views(shares@))),
            share_count(share_views(shares@)),
        ),
        r@.len() <= shares@.len(),
{
    let ghost all = shares@;
    let ghost views = share_views(all);
    let ghost amounts = share_amounts(views);
    let mut rest = shares;
    let mut groups: Vec<CashflowCategoryGroup> = Vec::new();
    let ghost mut i: int = 0;
    proof {
        lemma_no_groups();
        assert(groups@ =~= Seq::<CashflowCategoryGroup>::empty());
        assert(views.take(0) =~= Seq::<(Seq<char>, GroupContent)>::empty());
        assert(rest@ =~= all.skip(0));
        lemma_weight_take(amounts, 0);
    }
    while rest.len() > 0
        invariant
            0 <= i <= all.len(),
            rest@ == all.skip(i),
            views == share_views(all),
            amounts == share_amounts(views),
            shares_fit(views),
            apart(groups@),
            by_category(groups@) == gathered(views.take(i)),
            within(groups@, full_weight(amounts.take(i)), share_count(views.take(i))),
            groups@.len() <= i,
        decreases rest.len(),
    {
        let ghost w = full_weight(amounts.take(i));
        let ghost c = share_count(views.take(i));
        let share = rest.remove(0);
        proof {
            assert(share == all[i]);
            assert(rest@ =~= all.skip(i + 1));
            assert(views.take(i + 1).drop_last() =~= views.take(i));
            assert(amounts.take(i + 1).drop_last() =~= amounts.take(i));
            lemma_weight_take(amounts, i);
            lemma_weight_take(amounts, i + 1);
            lemma_share_count_take(views, i);
            lemma_share_count_take(views, i + 1);
            assert(views[i] == share@);
            assert(amounts[i] == share.subtotal);
        }
        add_to_group(
            &mut groups,
            share.category_id,
            share.subtotal,
            share.transactions,
            share.items,
            Ghost(w),
            Ghost(c),
        );
        proof {
            i = i + 1;
        }
    }
    assert(views.take(i) =~= views);
    assert(amounts.take(i) =~= amounts);
    groups
}

/// What card bills add to the expenses, by category.
pub fn card_bill_expense_groups(card_bills: &Vec<CashflowCardBillDetail>) -> (r: Vec<
    CashflowCategoryGroup,
>)
    requires
        shares_fit(shares_of(card_bills@)),
    ensures
        lists_groups(r@, gathered(shares_of(card_bills@))),
        within(
            r@,
            full_weight(share_amounts(shares_of(card_bills@))),
            share_count(shares_of(card_bills@)),
        ),
{
    let shares = list_shares(card_bills);
    let groups = gather(shares);
    sorted_cashflow_groups(groups)
}

/// Two sets of groups taken together.
pub open spec fn joined_groups(
    a: Map<Seq<char>, GroupContent>,
    b: Map<Seq<char>, GroupContent>,
) -> Map<Seq<char>, GroupContent> {
    Map::new(
        |k: Seq<char>| a.contains_key(k) || b.contains_key(k),
        |k: Seq<char>|
            if b.contains_key(k) {
                with_more(a, k, b[k])[k]
            } else {
                a[k]
            },
    )
}

proof fn lemma_join_step(
    a: Map<Seq<char>, GroupContent>,
    b: Map<Seq<char>, GroupContent>,
    k: Seq<char>,
    c: GroupContent,
)
    requires
        !b.contains_key(k),
    ensures
        joined_groups(a, b.insert(k, c)) == with_more(joined_groups(a, b), k, c),
{
    assert(content_of(joined_groups(a, b), k) == content_of(a, k));
    assert(joined_groups(a, b.insert(k, c)) =~= with_more(joined_groups(a, b), k, c));
}

/// Whether the groups of `done` are within `large` and the others within `small`.
spec fn map_within(
    groups: Map<Seq<char>, GroupContent>,
    done: Map<Seq<char>, GroupContent>,
    small: int,
    large: int,
    few: int,
    many: int,
) -> bool {
    forall|k: Seq<char>| #[trigger]
        groups.contains_key(k) ==> if done.contains_key(k) {
            size_of(groups[k].subtotal) <= large && groups[k].transactions <= many
        } else {
            size_of(groups[k].subtotal) <= small && groups[k].transactions <= few
        }
}

proof fn lemma_within_map(
    groups: Seq<CashflowCategoryGroup>,
    done: Map<Seq<char>, GroupContent>,
    small: int,
    large: int,
    few: int,
    many: int,
)
    requires
        apart(groups),
        map_within(by_category(groups), done, small, large, few, many),
        small <= large,
        few <= many,
    ensures
        within(groups, large, many),
{
    assert forall|i: int| 0 <= i < groups.len() implies size_of((#[trigger] groups[i]).subtotal)
        <= large && groups[i].transactions <= many by {
        lemma_by_category(groups, i);
        assert(by_category(groups).contains_key(groups[i].category_id@));
    }
}

proof fn lemma_map_within(groups: Seq<CashflowCategoryGroup>, small: int, few: int, large: int, many: int)
    requires
        apart(groups),
        within(groups, small, few),
    ensures
        map_within(by_category(groups), Map::empty(), small, large, few, many),
{
    assert forall|k: Seq<char>| #[trigger] by_category(groups).contains_key(k) implies size_of(
        by_category(groups)[k].subtotal,
    ) <= small && by_category(groups)[k].transactions <= few by {
        let i = choose|i: int| crate::cashflow::has_group(groups, k, i);
        lemma_by_category(groups, i);
    }
}

/// Whether bills can be added to groups.
pub open spec fn merge_fits(
    groups: Seq<CashflowCategoryGroup>,
    shares: Seq<(Seq<char>, GroupContent)>,
) -> bool {
    &&& shares_fit(shares)
    &&& within(
        groups,
        limit() - 2 * full_weight(share_amounts(shares)) - one(),
        u64::MAX - 2 * share_count(shares),
    )
    &&& 2 * full_weight(share_amounts(shares)) + one() <= limit()
    &&& 2 * share_count(shares) <= u64::MAX
}

/// Adds what card bills came to, by category.
pub fn merge_card_bill_expense_groups(
    expense_groups: &mut Vec<CashflowCategoryGroup>,
    card_bills: &Vec<CashflowCardBillDetail>,
)
    requires
        apart(old(expense_groups)@),
        merge_fits(old(expense_groups)@, shares_of(card_bills@)),
    ensures
        apart(final(expense_groups)@),
        by_category(final(expense_groups)@) == joined_groups(
            by_category(old(expense_groups)@),
            gathered(shares_of(card_bills@)).map_values(|c: GroupContent| ordered_content(c)),
        ),
{
    let ghost s = full_weight(share_amounts(shares_of(card_bills@)));
    let ghost t = share_count(shares_of(card_bills@));
    let ghost small = limit() - 2 * s - one();
    let ghost large = limit() - s;
    let ghost few = u64::MAX - 2 * t;
    let ghost many = u64::MAX - t;
    let ghost start = by_category(expense_groups@);
    let groups = card_bill_expense_groups(card_bills);
    let ghost all = groups@;
    let mut rest = groups;
    let ghost mut i: int = 0;
    proof {
        lemma_weight_take(share_amounts(shares_of(card_bills@)), 0);
        lemma_share_count_nonnegative(shares_of(card_bills@));
        lemma_no_groups();
        assert(all.take(0) =~= Seq::<CashflowCategoryGroup>::empty());
        assert(rest@ =~= all.skip(0));
        assert(joined_groups(start, Map::empty()) =~= start);
        lemma_map_within(expense_groups@, small, few, large, many);
    }
    while rest.len() > 0
        invariant
            0 <= i <= all.len(),
            rest@ == all.skip(i),
            apart(all),
            within(all, s, t),
            s >= 0,
            t >= 0,
            small == limit() - 2 * s - one(),
            large == limit() - s,
            few == u64::MAX - 2 * t,
            many == u64::MAX - t,
            small >= 0,
            few >= 0,
            apart(expense_groups@),
            by_category(expense_groups@) == joined_groups(start, by_category(all.take(i))),
            map_within(
                by_category(expense_groups@),
                by_category(all.take(i)),
                small,
                large,
                few,
                many,
            ),
        decreases rest.len(),
    {
        let ghost before = by_category(expense_groups@);
        let ghost done = by_category(all.take(i));
        let group = rest.remove(0);
        let ghost key = group.category_id@;
        proof {
            crate::amount::lemma_one();
            assert(group == all[i]);
            assert(rest@ =~= all.skip(i + 1));
            lemma_within_map(expense_groups@, done, small, large, few, many);
            lemma_appended(
                all.take(i),
                all.take(i + 1),
                done.insert(key, group@),
            );
            if done.contains_key(key) {
                let j = choose|j: int| crate::cashflow::has_group(all.take(i), key, j);
                assert(all[j].category_id@ != all[i].category_id@);
            }
            lemma_join_step(start, done, key, group@);
        }
        let ghost group_view = group@;
        add_to_group(
            expense_groups,
            group.category_id,
            group.subtotal,
            group.transactions,
            group.items,
            Ghost(large),
            Ghost(many),
        );
        proof {
            let after = by_category(expense_groups@);
            let next = done.insert(key, group_view);
            assert(by_category(all.take(i + 1)) == next);
            assert forall|k: Seq<char>| #[trigger] after.contains_key(k) implies if next.contains_key(
                k,
            ) {
                size_of(after[k].subtotal) <= large && after[k].transactions <= many
            } else {
                size_of(after[k].subtotal) <= small && after[k].transactions <= few
            } by {
                if k != key {
                    assert(before.contains_key(k));
                } else {
                    broadcast use crate::amount::lemma_made;

                    crate::amount::lemma_zero_scaled(crate::amount::zero());
                    assert(size_of(all[i].subtotal) <= s && all[i].transactions <= t);
                    assert(after == with_more(before, key, group_view));
                    if before.contains_key(key) {
                        assert(!done.contains_key(key));
                    }
                }
            }
            i = i + 1;
        }
    }
    assert(all.take(i) =~= all);
}

// ---------------------------------------------------------------------------
// The card summary

/// Whether a marker is that of the last installment.
pub open spec fn last_installment(marker: Seq<char>) -> bool {
    match split_at_char(marker, '/') {
        Some((left, right)) => match (parsed_u32(left), parsed_u32(right)) {
            (Some(current), Some(total)) => current > 0 && current == total,
            _ => false,
        },
        None => false,
    }
}

/// Whether a marker is that of the last installment.
pub fn installment_marker_is_final(marker: &str) -> (r: bool)
    ensures
        r == last_installment(marker@),
{
    match split_once(marker, '/') {
        Some((left, right)) => match (parse_u32(left.as_str()), parse_u32(right.as_str())) {
            (Some(current), Some(total)) => current > 0 && current == total,
            _ => false,
        },
        None => false,
    }
}

/// Whether a description tells of the last installment.
pub open spec fn tells_last_installment(description: Seq<char>) -> bool {
    exists|i: int|
        0 <= i < words(description).len() && last_installment(
            stripped(#[trigger] words(description)[i], true),
        )
}

/// Whether an item is the last installment of a purchase.
pub fn cashflow_installment_item_is_final(item: &CashflowDetailItem) -> (r: bool)
    ensures
        r == tells_last_installment(item.description@),
{
    let tokens = split_whitespace(item.description.as_str());
    let ghost list = words(item.description@);
    let mut i: usize = 0;
    while i < tokens.len()
        invariant
            i <= tokens.len(),
            list == words(item.description@),
            texts(tokens@) == list,
            tokens@.len() == list.len(),
            forall|j: int|
                0 <= j < i ==> !last_installment(stripped(#[trigger] list[j], true)),
        decreases tokens.len() - i,
    {
        assert(texts(tokens@)[i as int] == tokens@[i as int]@);
        let token = strip_token(&chars(tokens[i].as_str()), true);
        if installment_marker_is_final(from_chars(&token).as_str()) {
            assert(last_installment(stripped(list[i as int], true)));
            return true;
        }
        i = i + 1;
    }
    false
}

/// The card bills of a month in short.
pub struct CashflowCardSummary {
    pub total: Amount,
    pub paid_on: Vec<Date>,
    pub installments_total: Amount,
    pub installment_transactions: u64,
    pub installments_released_this_month: Amount,
}

/// The amounts that were paid.
pub open spec fn paid_amounts(bills: Seq<CashflowCardBillDetail>) -> Seq<Amount>
    decreases bills.len(),
{
    if bills.len() == 0 {
        Seq::empty()
    } else if bills.last().paid_amount.scaled() > 0 {
        paid_amounts(bills.drop_last()).push(bills.last().paid_amount)
    } else {
        paid_amounts(bills.drop_last())
    }
}

pub open spec fn bill_totals(bills: Seq<CashflowCardBillDetail>) -> Seq<Amount> {
    bills.map_values(|b: CashflowCardBillDetail| b.bill_total)
}

pub open spec fn installment_totals(bills: Seq<CashflowCardBillDetail>) -> Seq<Amount> {
    bills.map_values(|b: CashflowCardBillDetail| magnitude(b.installments.subtotal))
}

pub open spec fn installment_count(bills: Seq<CashflowCardBillDetail>) -> int
    decreases bills.len(),
{
    if bills.len() == 0 {
        0
    } else {
        installment_count(bills.drop_last()) + bills.last().installments.transactions
    }
}

/// What the last installments among the items come to.
pub open spec fn last_amounts(items: Seq<CashflowDetailItem>) -> Seq<Amount>
    decreases items.len(),
{
    if items.len() == 0 {
        Seq::empty()
    } else if tells_last_installment(items.last().description@) {
        last_amounts(items.drop_last()).push(magnitude(items.last().amount))
    } else {
        last_amounts(items.drop_last())
    }
}

/// What the last installments on the bills come to.
pub open spec fn released_amounts(bills: Seq<CashflowCardBillDetail>) -> Seq<Amount>
    decreases bills.len(),
{
    if bills.len() == 0 {
        Seq::empty()
    } else {
        released_amounts(bills.drop_last()) + last_amounts(bills.last().installments.items@)
    }
}

/// What the bills come to: what was paid, or what they ask where nothing was.
pub open spec fn summary_total(bills: Seq<CashflowCardBillDetail>) -> Amount {
    let paid = sum_of(paid_amounts(bills));
    if paid.scaled() > 0 {
        paid
    } else {
        sum_of(bill_totals(bills))
    }
}

fn list_paid(bills: &Vec<CashflowCardBillDetail>) -> (r: Vec<Amount>)
    ensures
        r@ == paid_amounts(bills@),
{
    let mut out: Vec<Amount> = Vec::new();
    let mut i: usize = 0;
    assert(bills@.take(0) =~= Seq::<CashflowCardBillDetail>::empty());
    while i < bills.len()
        invariant
            i <= bills.len(),
            out@ == paid_amounts(bills@.take(i as int)),
        decreases bills.len() - i,
    {
        assert(bills@.take(i + 1).drop_last() =~= bills@.take(i as int));
        if bills[i].paid_amount.is_above_zero() {
            out.push(bills[i].paid_amount);
        }
        i = i + 1;
    }
    assert(bills@.take(i as int) =~= bills@);
    out
}

fn list_totals(bills: &Vec<CashflowCardBillDetail>) -> (r: (Vec<Amount>, Vec<Amount>))
    ensures
        r.0@ == bill_totals(bills@),
        r.1@ == installment_totals(bills@),
{
    let mut totals: Vec<Amount> = Vec::new();
    let mut parts: Vec<Amount> = Vec::new();
    let mut i: usize = 0;
    while i < bills.len()
        invariant
            i <= bills.len(),
            totals@ == bill_totals(bills@).take(i as int),
            parts@ == installment_totals(bills@).take(i as int),
        decreases bills.len() - i,
    {
        totals.push(bills[i].bill_total);
        parts.push(bills[i].installments.subtotal.abs());
        i = i + 1;
        assert(totals@ =~= bill_totals(bills@).take(i as int));
        assert(parts@ =~= installment_totals(bills@).take(i as int));
    }
    assert(totals@ =~= bill_totals(bills@));
    assert(parts@ =~= installment_totals(bills@));
    (totals, parts)
}

fn list_last(items: &Vec<CashflowDetailItem>) -> (r: Vec<Amount>)
    ensures
        r@ == last_amounts(items@),
{
    let mut out: Vec<Amount> = Vec::new();
    let mut i: usize = 0;
    assert(items@.take(0) =~= Seq::<CashflowDetailItem>::empty());
    while i < items.len()
        invariant
            i <= items.len(),
            out@ == last_amounts(items@.take(i as int)),
        decreases items.len() - i,
    {
        assert(items@.take(i + 1).drop_last() =~= items@.take(i as int));
        if cashflow_installment_item_is_final(&items[i]) {
            out.push(items[i].amount.abs());
        }
        i = i + 1;
    }
    assert(items@.take(i as int) =~= items@);
    out
}

fn list_released(bills: &Vec<CashflowCardBillDetail>) -> (r: Vec<Amount>)
    ensures
        r@ == released_amounts(bills@),
{
    let mut out: Vec<Amount> = Vec::new();
    let mut i: usize = 0;
    assert(bills@.take(0) =~= Seq::<CashflowCardBillDetail>::empty());
    while i < bills.len()
        invariant
            i <= bills.len(),
            out@ == released_amounts(bills@.take(i as int)),
        decreases bills.len() - i,
    {
        assert(bills@.take(i + 1).drop_last() =~= bills@.take(i as int));
        let mut more = list_last(&bills[i].installments.items);
        out.append(&mut more);
        i = i + 1;
    }
    assert(bills@.take(i as int) =~= bills@);
    out
}

fn count_installments(bills: &Vec<CashflowCardBillDetail>) -> (r: u64)
    requires
        installment_count(bills@) <= u64::MAX,
    ensures
        r == installment_count(bills@),
{
    let mut n: u64 = 0;
    let mut i: usize = 0;
    assert(bills@.take(0) =~= Seq::<CashflowCardBillDetail>::empty());
    while i < bills.len()
        invariant
            i <= bills.len(),
            installment_count(bills@) <= u64::MAX,
            n == installment_count(bills@.take(i as int)),
        decreases bills.len() - i,
    {
        proof {
            assert(bills@.take(i + 1).drop_last() =~= bills@.take(i as int));
            lemma_installment_count(bills@, i + 1);
        }
        n = n + bills[i].installments.transactions;
        i = i + 1;
    }
    assert(bills@.take(i as int) =~= bills@);
    n
}

proof fn lemma_installment_count(bills: Seq<CashflowCardBillDetail>, k: int)
    requires
        0 <= k <= bills.len(),
    ensures
        installment_count(bills.take(k)) <= installment_count(bills),
    decreases bills.len() - k,
{
    if k == bills.len() {
        assert(bills.take(k) =~= bills);
    } else {
        lemma_installment_count(bills, k + 1);
        assert(bills.take(k + 1).drop_last() =~= bills.take(k));
    }
}

/// Whether a bill was paid on a day.
pub open spec fn paid_on_day(bills: Seq<CashflowCardBillDetail>, day: Date, i: int) -> bool {
    0 <= i < bills.len() && bills[i].payment_date == Some(day)
}

/// Whether the days ascend.
pub open spec fn days_ascend(days: Seq<Date>) -> bool {
    forall|i: int, j: int|
        0 <= i < j < days.len() ==> (#[trigger] days[i]).before(#[trigger] days[j])
}

proof fn lemma_day_order(a: Date, b: Date, c: Date)
    ensures
        a.before(b) && b.before(c) ==> a.before(c),
        !(a.before(b) && b.before(a)),
        !a.before(b) && !b.before(a) ==> a == b,
{
    if !a.before(b) && !b.before(a) {
        crate::date::lemma_same_date(a, b);
    }
}

fn put_day(days: &mut Vec<Date>, day: &Date)
    requires
        days_ascend(old(days)@),
    ensures
        days_ascend(final(days)@),
        forall|d: Date| #[trigger]
            final(days)@.contains(d) <==> old(days)@.contains(d) || d == *day,
{
    let ghost before = days@;
    let mut i: usize = days.len();
    while i > 0 && day.is_before(&days[i - 1])
        invariant
            i <= days.len(),
            days@ == before,
            forall|j: int| i <= j < days@.len() ==> day.before(#[trigger] days@[j]),
        decreases i,
    {
        i = i - 1;
    }
    if i > 0 && days[i - 1].is_same_day(day) {
        assert(before[i - 1] == *day);
        return;
    }
    days.insert(i, *day);
    proof {
        let after = days@;
        if i > 0 {
            lemma_day_order(before[i - 1], *day, *day);
        }
        assert forall|a: int, b: int| 0 <= a < b < after.len() implies (
        #[trigger] after[a]).before(#[trigger] after[b]) by {
            if b == i {
                if a < i - 1 {
                    assert(before[a].before(before[i - 1]));
                    lemma_day_order(before[a], before[i - 1], *day);
                }
            } else if a == i {
                assert(after[b] == before[b - 1]);
            } else {
                let x = if a < i { a } else { a - 1 };
                let y = if b < i { b } else { b - 1 };
                assert(before[x].before(before[y]));
            }
        }
        assert forall|d: Date| #[trigger] after.contains(d) <==> before.contains(d) || d == *day by {
            if before.contains(d) {
                let x = choose|x: int| 0 <= x < before.len() && before[x] == d;
                if x < i {
                    assert(after[x] == d);
                } else {
                    assert(after[x + 1] == d);
                }
            }
            if after.contains(d) {
                let x = choose|x: int| 0 <= x < after.len() && after[x] == d;
                if x < i {
                    assert(before[x] == d);
                } else if x > i {
                    assert(before[x - 1] == d);
                }
            }
            assert(after[i as int] == *day);
        }
    }
}

/// The days on which bills were paid, each once, in order.
pub fn cashflow_card_paid_dates(card_bills: &Vec<CashflowCardBillDetail>) -> (r: Vec<Date>)
    ensures
        days_ascend(r@),
        forall|d: Date| #[trigger]
            r@.contains(d) <==> exists|i: int| paid_on_day(card_bills@, d, i),
{
    let mut days: Vec<Date> = Vec::new();
    let mut i: usize = 0;
    while i < card_bills.len()
        invariant
            i <= card_bills.len(),
            days_ascend(days@),
            forall|d: Date| #[trigger]
                days@.contains(d) <==> exists|j: int| j < i && paid_on_day(card_bills@, d, j),
        decreases card_bills.len() - i,
    {
        let ghost before = days@;
        match &card_bills[i].payment_date {
            Some(day) => {
                put_day(&mut days, day);
                assert(paid_on_day(card_bills@, *day, i as int));
            },
            None => {},
        }
        proof {
            assert forall|d: Date| #[trigger] days@.contains(d) <==> exists|j: int|
                j < i + 1 && paid_on_day(card_bills@, d, j) by {
                if days@.contains(d) {
                    if before.contains(d) {
                        let j = choose|j: int| j < i && paid_on_day(card_bills@, d, j);
                        assert(j < i + 1 && paid_on_day(card_bills@, d, j));
                    } else {
                        assert(paid_on_day(card_bills@, d, i as int));
                    }
                }
                if exists|j: int| j < i + 1 && paid_on_day(card_bills@, d, j) {
                    let j = choose|j: int| j < i + 1 && paid_on_day(card_bills@, d, j);
                    if j < i {
                        assert(before.contains(d));
                    }
                }
            }
        }
        i = i + 1;
    }
    days
}

/// Whether the card summary of the bills can be computed.
pub open spec fn summary_fits(bills: Seq<CashflowCardBillDetail>) -> bool {
    &&& full_weight(paid_amounts(bills)) <= limit()
    &&& full_weight(bill_totals(bills)) <= limit()
    &&& full_weight(installment_totals(bills)) <= limit()
    &&& full_weight(released_amounts(bills)) <= limit()
    &&& installment_count(bills) <= u64::MAX
}

/// Whether a summary tells what the bills come to.
pub open spec fn summarizes(r: CashflowCardSummary, bills: Seq<CashflowCardBillDetail>) -> bool {
    &&& r.total == summary_total(bills)
    &&& days_ascend(r.paid_on@)
    &&& forall|d: Date| #[trigger]
        r.paid_on@.contains(d) <==> exists|i: int| paid_on_day(bills, d, i)
    &&& r.installments_total == sum_of(installment_totals(bills))
    &&& r.installment_transactions == installment_count(bills)
    &&& r.installments_released_this_month == sum_of(released_amounts(bills))
}

/// The card bills of a month in short.
pub fn cashflow_card_summary(card_bills: &Vec<CashflowCardBillDetail>) -> (r: CashflowCardSummary)
    requires
        summary_fits(card_bills@),
    ensures
        summarizes(r, card_bills@),
{
    let paid = list_paid(card_bills);
    let (totals, parts) = list_totals(card_bills);
    let released = list_released(card_bills);
    let paid_total = total_of_all(&paid);
    let total = if paid_total.is_above_zero() {
        paid_total
    } else {
        total_of_all(&totals)
    };
    CashflowCardSummary {
        total,
        paid_on: cashflow_card_paid_dates(card_bills),
        installments_total: total_of_all(&parts),
        installment_transactions: count_installments(card_bills),
        installments_released_this_month: total_of_all(&released),
    }
}

/// The summary where there are no bills.
pub fn empty_cashflow_card_summary() -> (r: CashflowCardSummary)
    ensures
        r.total == zero(),
        r.paid_on@.len() == 0,
        r.installments_total == zero(),
        r.installment_transactions == 0,
        r.installments_released_this_month == zero(),
{
    CashflowCardSummary {
        total: Amount::none(),
        paid_on: Vec::new(),
        installments_total: Amount::none(),
        installment_transactions: 0,
        installments_released_this_month: Amount::none(),
    }
}

// ---------------------------------------------------------------------------
// Balances

/// What a checking account holds.
pub struct CashflowAccountBalance {
    pub account_id: String,
    pub owner: String,
    pub label: String,
    pub balance: Option<Amount>,
    pub snapshot_date: Date,
}

impl Ranked for CashflowAccountBalance {
    /// By owner, then by label, then by account.
    open spec fn le(a: Self, b: Self) -> bool {
        precedes(a.owner@, b.owner@) || (a.owner@ == b.owner@ && (precedes(a.label@, b.label@) || (
        a.label@ == b.label@ && !precedes(b.account_id@, a.account_id@))))
    }

    proof fn le_total(a: Self, b: Self) {
        lemma_precedes_total(a.owner@, b.owner@);
        lemma_precedes_total(a.label@, b.label@);
        if precedes(b.account_id@, a.account_id@) {
            lemma_precedes_asymmetric(b.account_id@, a.account_id@);
        }
    }

    proof fn le_transitive(a: Self, b: Self, c: Self) {
        if precedes(a.owner@, b.owner@) && precedes(b.owner@, c.owner@) {
            lemma_precedes_transitive(a.owner@, b.owner@, c.owner@);
        }
        if precedes(a.label@, b.label@) && precedes(b.label@, c.label@) {
            lemma_precedes_transitive(a.label@, b.label@, c.label@);
        }
        let (x, y, z) = (a.account_id@, b.account_id@, c.account_id@);
        if precedes(z, x) {
            lemma_precedes_total(x, y);
            if precedes(x, y) {
                lemma_precedes_transitive(z, x, y);
            }
        }
    }

    fn may_precede(&self, other: &Self) -> (r: bool) {
        proof {
            lemma_precedes_total(self.owner@, other.owner@);
            lemma_precedes_total(self.label@, other.label@);
            lemma_precedes_irreflexive(self.owner@);
            lemma_precedes_irreflexive(self.label@);
        }
        if less(self.owner.as_str(), other.owner.as_str()) {
            true
        } else if !same(self.owner.as_str(), other.owner.as_str()) {
            false
        } else if less(self.label.as_str(), other.label.as_str()) {
            true
        } else if !same(self.label.as_str(), other.label.as_str()) {
            false
        } else {
            !less(other.account_id.as_str(), self.account_id.as_str())
        }
    }
}

/// The last checking account with the identifier.
pub open spec fn last_checking(accounts: Seq<AccountRecord>, id: Seq<char>) -> Option<AccountRecord>
    decreases accounts.len(),
{
    if accounts.len() == 0 {
        None
    } else if accounts.last().account_type@ == "checking"@ && accounts.last().account_id@ == id {
        Some(accounts.last())
    } else {
        last_checking(accounts.drop_last(), id)
    }
}

fn find_last_checking<'a>(accounts: &'a Vec<AccountRecord>, id: &str) -> (r: Option<
    &'a AccountRecord,
>)
    ensures
        match r {
            Some(a) => last_checking(accounts@, id@) == Some(*a),
            None => last_checking(accounts@, id@) is None,
        },
{
    let mut i: usize = accounts.len();
    assert(accounts@.take(i as int) =~= accounts@);
    while i > 0
        invariant
            i <= accounts.len(),
            last_checking(accounts@, id@) == last_checking(accounts@.take(i as int), id@),
        decreases i,
    {
        assert(accounts@.take(i as int).drop_last() =~= accounts@.take(i - 1));
        assert(accounts@.take(i as int).last() == accounts@[i - 1]);
        if same(accounts[i - 1].account_type.as_str(), "checking") && same(
            accounts[i - 1].account_id.as_str(),
            id,
        ) {
            return Some(&accounts[i - 1]);
        }
        i = i - 1;
    }
    None
}

/// What a snapshot tells of an account.
pub open spec fn balance_from(account: AccountRecord, snapshot: AccountSnapshotRecord) -> CashflowAccountBalance {
    CashflowAccountBalance {
        account_id: account.account_id,
        owner: account.owner,
        label: if account.label@.len() == 0 {
            account.account_id
        } else {
            account.label
        },
        balance: snapshot.balance,
        snapshot_date: snapshot.snapshot_date,
    }
}

/// The balances of the checking accounts, in the order of the snapshots.
pub open spec fn balances_of(accounts: Seq<AccountRecord>, snapshots: Seq<AccountSnapshotRecord>) -> Seq<
    CashflowAccountBalance,
>
    decreases snapshots.len(),
{
    if snapshots.len() == 0 {
        Seq::empty()
    } else {
        let before = balances_of(accounts, snapshots.drop_last());
        match last_checking(accounts, snapshots.last().account_id@) {
            Some(a) => before.push(balance_from(a, snapshots.last())),
            None => before,
        }
    }
}

/// The balances of the checking accounts, by owner, label and account.
pub fn cashflow_account_balances(
    accounts: &Vec<AccountRecord>,
    snapshots: &Vec<AccountSnapshotRecord>,
) -> (r: Vec<CashflowAccountBalance>)
    ensures
        r@ == sorted(balances_of(accounts@, snapshots@)),
{
    let mut out: Vec<CashflowAccountBalance> = Vec::new();
    let mut i: usize = 0;
    assert(snapshots@.take(0) =~= Seq::<AccountSnapshotRecord>::empty());
    while i < snapshots.len()
        invariant
            i <= snapshots.len(),
            out@ == balances_of(accounts@, snapshots@.take(i as int)),
        decreases snapshots.len() - i,
    {
        assert(snapshots@.take(i + 1).drop_last() =~= snapshots@.take(i as int));
        match find_last_checking(accounts, snapshots[i].account_id.as_str()) {
            Some(account) => {
                let label = if account.label.as_str().is_empty() {
                    account.account_id.clone()
                } else {
                    account.label.clone()
                };
                let balance = CashflowAccountBalance {
                    account_id: account.account_id.clone(),
                    owner: account.owner.clone(),
                    label,
                    balance: snapshots[i].balance,
                    snapshot_date: snapshots[i].snapshot_date,
                };
                out.push(balance);
            },
            None => {},
        }
        i = i + 1;
    }
    assert(snapshots@.take(i as int) =~= snapshots@);
    sort(out)
}

// ---------------------------------------------------------------------------
// The details of a month

/// What came in and went out in a month, and what is planned.
pub struct CashflowDetailSections {
    pub income: Vec<CashflowCategoryGroup>,
    pub expenses: Vec<CashflowCategoryGroup>,
    pub card_bills: Vec<CashflowCardBillDetail>,
    pub forecast: Vec<CashflowCategoryGroup>,
}

/// Whether the details of a month can be computed.
pub open spec fn sections_fit(source: BillSource, forecast: Option<Vec<ForecastVsActualRow>>) -> bool {
    let n = source.rows@.len() as int;
    let w = full_weight(tx_amounts(source.rows@));
    &&& source.sound()
    &&& full_weight(tx_amounts(source.txs@)) + 6 * (n * n * (w + one())) + one() <= limit()
    &&& source.txs@.len() + 6 * (n * n * n) <= u64::MAX
    &&& match forecast {
        Some(rows) => full_weight(planned_amounts(rows@)) + full_weight(actual_amounts(rows@))
            <= limit(),
        None => true,
    }
}

proof fn lemma_weight_sum(a: Seq<Amount>, b: Seq<Amount>)
    ensures
        full_weight(a + b) == full_weight(a) + full_weight(b),
    decreases b.len(),
{
    if b.len() == 0 {
        assert(a + b =~= a);
    } else {
        assert((a + b).drop_last() =~= a + b.drop_last());
        lemma_weight_sum(a, b.drop_last());
    }
}

proof fn lemma_count_sum(a: Seq<(Seq<char>, GroupContent)>, b: Seq<(Seq<char>, GroupContent)>)
    ensures
        share_count(a + b) == share_count(a) + share_count(b),
    decreases b.len(),
{
    if b.len() == 0 {
        assert(a + b =~= a);
    } else {
        assert((a + b).drop_last() =~= a + b.drop_last());
        lemma_count_sum(a, b.drop_last());
    }
}

proof fn lemma_bounded_shares(shares: Seq<(Seq<char>, GroupContent)>, w: int, n: int)
    requires
        forall|i: int|
            0 <= i < shares.len() ==> size_of((#[trigger] shares[i]).1.subtotal) <= w
                && shares[i].1.transactions <= n,
    ensures
        full_weight(share_amounts(shares)) <= shares.len() * (w + one()),
        share_count(shares) <= shares.len() * n,
    decreases shares.len(),
{
    if shares.len() > 0 {
        let t = shares.drop_last();
        assert forall|i: int| 0 <= i < t.len() implies size_of((#[trigger] t[i]).1.subtotal) <= w
            && t[i].1.transactions <= n by {
            assert(t[i] == shares[i]);
        }
        lemma_bounded_shares(t, w, n);
        assert(share_amounts(shares).drop_last() =~= share_amounts(t));
        let k = shares.len() as int;
        assert(shares[k - 1].1.transactions <= n);
        assert((k - 1) * (w + one()) + (w + one()) == k * (w + one())) by (nonlinear_arith);
        assert((k - 1) * n + n == k * n) by (nonlinear_arith);
        assert(share_amounts(shares).last() == shares[k - 1].1.subtotal);
    } else {
        assert(shares.len() * (w + one()) == 0) by (nonlinear_arith)
            requires
                shares.len() == 0,
        ;
    }
}

proof fn lemma_bill_shares(bill: CashflowCardBillDetail, w: int, n: int)
    requires
        bill_within(bill, w, n),
        n >= 0,
        w >= 0,
    ensures
        full_weight(share_amounts(bill_shares(bill))) <= 3 * n * (w + one()),
        share_count(bill_shares(bill)) <= 3 * n * n,
{
    let a = listed_shares(bill.installments);
    let b = listed_shares(bill.subscriptions);
    let c = total_shares(bill.other_categories@);
    let all = bill_shares(bill);
    crate::amount::lemma_one();
    assert(all.len() == a.len() + b.len() + c.len());
    assert(all.len() <= 3 * n);
    assert forall|i: int| 0 <= i < all.len() implies size_of((#[trigger] all[i]).1.subtotal) <= w
        && all[i].1.transactions <= n by {
        if i < a.len() {
            assert(all[i] == share_of_item(
                bill.installments.category_id@,
                bill.installments.items@[i],
            ));
        } else if i < a.len() + b.len() {
            assert(all[i] == share_of_item(
                bill.subscriptions.category_id@,
                bill.subscriptions.items@[i - a.len()],
            ));
        } else {
            let g = bill.other_categories@[i - a.len() - b.len()];
            assert(all[i].1.subtotal == g.subtotal && all[i].1.transactions == g.transactions);
        }
    }
    lemma_bounded_shares(all, w, n);
    let k = all.len() as int;
    assert(k * (w + one()) <= 3 * n * (w + one())) by (nonlinear_arith)
        requires
            k <= 3 * n,
            w + one() >= 0,
    ;
    assert(k * n <= 3 * n * n) by (nonlinear_arith)
        requires
            k <= 3 * n,
            n >= 0,
    ;
}

proof fn lemma_all_shares(bills: Seq<CashflowCardBillDetail>, w: int, n: int)
    requires
        forall|i: int| 0 <= i < bills.len() ==> bill_within(#[trigger] bills[i], w, n),
        n >= 0,
        w >= 0,
    ensures
        full_weight(share_amounts(shares_of(bills))) <= bills.len() * (3 * n * (w + one())),
        share_count(shares_of(bills)) <= bills.len() * (3 * n * n),
    decreases bills.len(),
{
    if bills.len() > 0 {
        let t = bills.drop_last();
        assert forall|i: int| 0 <= i < t.len() implies bill_within(#[trigger] t[i], w, n) by {
            assert(t[i] == bills[i]);
        }
        lemma_all_shares(t, w, n);
        let last = bill_shares(bills.last());
        assert(bill_within(bills[bills.len() - 1], w, n));
        lemma_bill_shares(bills.last(), w, n);
        assert(share_amounts(shares_of(t) + last) =~= share_amounts(shares_of(t)) + share_amounts(
            last,
        ));
        lemma_weight_sum(share_amounts(shares_of(t)), share_amounts(last));
        lemma_count_sum(shares_of(t), last);
        let k = bills.len() as int;
        let x = 3 * n * (w + one());
        let y = 3 * n * n;
        assert((k - 1) * x + x == k * x) by (nonlinear_arith);
        assert((k - 1) * y + y == k * y) by (nonlinear_arith);
    }
}

proof fn lemma_merge_fits(
    groups: Seq<CashflowCategoryGroup>,
    bills: Seq<CashflowCardBillDetail>,
    w: int,
    n: int,
    e: int,
    m: int,
)
    requires
        bills_within(bills, w, n),
        within(groups, e, m),
        n >= 0,
        w >= 0,
        e >= 0,
        m >= 0,
        e + 6 * (n * n * (w + one())) + one() <= limit(),
        m + 6 * (n * n * n) <= u64::MAX,
    ensures
        merge_fits(groups, shares_of(bills)),
{
    lemma_all_shares(bills, w, n);
    crate::amount::lemma_one();
    let k = bills.len() as int;
    let s = full_weight(share_amounts(shares_of(bills)));
    let t = share_count(shares_of(bills));
    assert(k * (3 * n * (w + one())) <= 3 * (n * n * (w + one()))) by (nonlinear_arith)
        requires
            0 <= k <= n,
            w + one() >= 0,
    ;
    assert(k * (3 * n * n) <= 3 * (n * n * n)) by (nonlinear_arith)
        requires
            0 <= k <= n,
    ;
    lemma_weight_take(share_amounts(shares_of(bills)), 0);
    lemma_share_count_nonnegative(shares_of(bills));
    assert(2 * s <= 6 * (n * n * (w + one())));
    assert(2 * t <= 6 * (n * n * n));
    assert(within(groups, limit() - 2 * s - one(), u64::MAX - 2 * t)) by {
        assert forall|i: int| 0 <= i < groups.len() implies size_of(
            (#[trigger] groups[i]).subtotal,
        ) <= limit() - 2 * s - one() && groups[i].transactions <= u64::MAX - 2 * t by {
            assert(size_of(groups[i].subtotal) <= e);
        }
    }
}

/// The details of a month. Forecasts are left out where none are given.
pub fn build_cashflow_detail_sections(
    source: &BillSource,
    forecast: &Option<Vec<ForecastVsActualRow>>,
) -> (r: Result<CashflowDetailSections, String>)
    requires
        sections_fit(*source, *forecast),
    ensures
        ({
            let internal = texts(source.internal@);
            let n = source.txs@.len() as int;
            let failing = first_without_cycle(source.rows@, source.accounts@, internal, 0);
            match r {
                Ok(d) => {
                    &&& source.payments().len() == 0 || failing is None
                    &&& lists_groups(
                        d.income@,
                        groups_of_kind(source.txs@, source.accounts@, internal, FlowKind::Income, n),
                    )
                    &&& bill_views(d.card_bills@) == (if source.payments().len() == 0 {
                        Seq::empty()
                    } else {
                        source.bills()
                    })
                    &&& lists_groups(
                        d.expenses@,
                        joined_groups(
                            groups_of_kind(
                                source.txs@,
                                source.accounts@,
                                internal,
                                FlowKind::Expense,
                                n,
                            ),
                            gathered(shares_of(d.card_bills@)).map_values(
                                |c: GroupContent| ordered_content(c),
                            ),
                        ),
                    )
                    &&& match *forecast {
                        Some(rows) => lists_groups(
                            d.forecast@,
                            forecast_groups(rows@, rows@.len() as int),
                        ),
                        None => d.forecast@.len() == 0,
                    }
                },
                Err(e) => source.payments().len() > 0 && match failing {
                    Some(i) => e@ == "Falha ao calcular mês deslocado a partir de "@ + iso_text(
                        date_of(
                            source.rows@[i].transaction_date.y(),
                            source.rows@[i].transaction_date.m(),
                            1,
                        ),
                    ),
                    None => false,
                },
            }
        }),
{
    let ghost n = source.rows@.len() as int;
    let ghost w = full_weight(tx_amounts(source.rows@));
    let ghost e = full_weight(tx_amounts(source.txs@));
    proof {
        crate::amount::lemma_one();
        lemma_weight_take(tx_amounts(source.rows@), 0);
        lemma_weight_take(tx_amounts(source.txs@), 0);
        assert(n * n * (w + one()) >= 0 && n * n * n >= 0) by (nonlinear_arith)
            requires
                n >= 0,
                w >= 0,
                one() >= 0,
        ;
    }
    let parts = collect_cashflow_actual_parts(&source.txs, &source.accounts, &source.internal);
    assert(crate::order::as_ints(parts.card_payments@).len() == parts.card_payments@.len());
    let card_bills = match cashflow_card_bill_details(source, &parts.card_payments) {
        Ok(bills) => bills,
        Err(problem) => {
            return Err(problem);
        },
    };
    let mut expense_groups = parts.expense_groups;
    proof {
        lemma_merge_fits(expense_groups@, card_bills@, w, n, e, source.txs@.len() as int);
        if source.payments().len() == 0 {
            assert(bill_views(card_bills@) =~= Seq::empty());
        }
    }
    merge_card_bill_expense_groups(&mut expense_groups, &card_bills);
    let income = sorted_cashflow_groups(parts.income_groups);
    let expenses = sorted_cashflow_groups(expense_groups);
    let planned = match forecast {
        Some(rows) => cashflow_forecast_groups(rows),
        None => Vec::new(),
    };
    Ok(CashflowDetailSections { income, expenses, card_bills, forecast: planned })
}

// ---------------------------------------------------------------------------
// The report of a month

fn copy_row(row: &CashflowRow) -> (r: CashflowRow)
    ensures
        r == *row,
{
    CashflowRow {
        month_ref: row.month_ref.clone(),
        income: row.income,
        expenses: row.expenses,
        expense_reduction: row.expense_reduction,
        net: row.net,
        opening_balance: row.opening_balance,
        closing_balance: row.closing_balance,
    }
}

/// The row of a month together with what is planned.
pub fn cashflow_report_summary(
    month_ref: &str,
    actual_summary: &CashflowRow,
    forecast_summary: &Option<CashflowRow>,
) -> (r: CashflowRow)
    requires
        match *forecast_summary {
            Some(f) => rows_fit(*actual_summary, f),
            None => true,
        },
    ensures
        match *forecast_summary {
            Some(f) => combined(month_ref@, r, *actual_summary, f),
            None => r == *actual_summary,
        },
{
    match forecast_summary {
        Some(f) => combine_cashflow_rows(month_ref, actual_summary, f),
        None => copy_row(actual_summary),
    }
}

/// The groups of what is planned.
pub open spec fn planned_groups(details: Option<CashflowDetailSections>) -> Seq<
    CashflowCategoryGroup,
> {
    match details {
        Some(d) => d.forecast@,
        None => Seq::empty(),
    }
}

/// Whether a row tells what is planned.
pub open spec fn tells_plan(month: Seq<char>, r: CashflowRow, groups: Seq<CashflowCategoryGroup>) -> bool {
    &&& r.month_ref@ == month
    &&& r.income == sum_of(gains(groups))
    &&& r.expenses == sum_of(losses(groups))
    &&& r.expense_reduction == zero()
    &&& r.net == minus(r.income, r.expenses)
    &&& r.opening_balance is None
    &&& r.closing_balance is None
}

/// What is planned for the month, where forecasts are wanted.
pub fn cashflow_report_forecast_summary(
    month_ref: &str,
    include_forecast: bool,
    details: &Option<CashflowDetailSections>,
) -> (r: Option<CashflowRow>)
    requires
        full_weight(gains(planned_groups(*details))) + full_weight(
            losses(planned_groups(*details)),
        ) <= limit(),
    ensures
        match r {
            Some(row) => include_forecast && tells_plan(month_ref@, row, planned_groups(*details)),
            None => !include_forecast,
        },
{
    if !include_forecast {
        return None;
    }
    match details {
        Some(d) => Some(summarize_forecast_groups(month_ref, &d.forecast)),
        None => {
            let none: Vec<CashflowCategoryGroup> = Vec::new();
            assert(none@ =~= Seq::<CashflowCategoryGroup>::empty());
            Some(summarize_forecast_groups(month_ref, &none))
        },
    }
}

/// The cash flow of a month.
pub struct CashflowMonthReport {
    pub month_ref: String,
    pub actual_summary: CashflowRow,
    pub forecast_summary: Option<CashflowRow>,
    pub summary: CashflowRow,
    pub account_balances: Vec<CashflowAccountBalance>,
    pub previous_details: Option<CashflowDetailSections>,
    pub card_summary: CashflowCardSummary,
    pub details: Option<CashflowDetailSections>,
}

/// Whether the details of a month are needed.
pub fn needs_details(include_details: bool, include_forecast: bool) -> (r: bool)
    ensures
        r == (include_details || include_forecast),
{
    include_details || include_forecast
}

/// Whether the row of a month can be moved by what is planned.
pub open spec fn plan_fits(row: CashflowRow, groups: Seq<CashflowCategoryGroup>) -> bool {
    let up = sum_of(gains(groups));
    let down = sum_of(losses(groups));
    &&& full_weight(gains(groups)) + full_weight(losses(groups)) <= limit()
    &&& sum_in_range(row.income, up)
    &&& sum_in_range(row.expenses, down)
    &&& sum_in_range(row.expense_reduction, zero())
    &&& sum_in_range(row.net, minus(up, down))
    &&& match row.closing_balance {
        Some(c) => sum_in_range(c, minus(up, down)),
        None => true,
    }
}

/// Whether the report of a month can be computed.
pub open spec fn report_fits(
    include_forecast: bool,
    row: CashflowRow,
    details: Option<CashflowDetailSections>,
) -> bool {
    &&& include_forecast ==> plan_fits(row, planned_groups(details))
    &&& match details {
        Some(d) => summary_fits(d.card_bills@),
        None => true,
    }
}

/// The cash flow of a month, from its details.
pub fn build_cashflow_month_report(
    month_ref: &str,
    include_details: bool,
    include_forecast: bool,
    actual_summary: CashflowRow,
    accounts: &Vec<AccountRecord>,
    snapshots: &Vec<AccountSnapshotRecord>,
    details: Option<CashflowDetailSections>,
    previous_details: Option<CashflowDetailSections>,
) -> (r: CashflowMonthReport)
    requires
        report_fits(include_forecast, actual_summary, details),
    ensures
        r.month_ref@ == month_ref@,
        r.actual_summary == actual_summary,
        match r.forecast_summary {
            Some(row) => include_forecast && tells_plan(month_ref@, row, planned_groups(details))
                && combined(month_ref@, r.summary, actual_summary, row),
            None => !include_forecast && r.summary == actual_summary,
        },
        r.account_balances@ == sorted(balances_of(accounts@, snapshots@)),
        r.previous_details == previous_details,
        match details {
            Some(d) => summarizes(r.card_summary, d.card_bills@),
            None => summarizes(r.card_summary, Seq::empty()),
        },
        r.details == (if include_details {
            details
        } else {
            None
        }),
{
    let forecast_summary = if include_forecast {
        cashflow_report_forecast_summary(month_ref, include_forecast, &details)
    } else {
        None
    };
    let summary = cashflow_report_summary(month_ref, &actual_summary, &forecast_summary);
    let card_summary = match &details {
        Some(d) => cashflow_card_summary(&d.card_bills),
        None => {
            assert(bill_totals(Seq::empty()) =~= Seq::empty());
            assert(installment_totals(Seq::empty()) =~= Seq::empty());
            empty_cashflow_card_summary()
        },
    };
    CashflowMonthReport {
        month_ref: month_ref.to_string(),
        actual_summary,
        forecast_summary,
        summary,
        account_balances: cashflow_account_balances(accounts, snapshots),
        previous_details,
        card_summary,
        details: if include_details {
            details
        } else {
            None
        },
    }
}

} // verus!
