//! Cash flow of a month, grouped by category.

use crate::amount::{
    abs, limit, magnitude, minus, negated, one, plus, sum_of, zero, Amount,
};
use crate::date::{
    lemma_day_in_calendar, month_start, parse_month_ref, shift_month, shifted_month, Date,
};
use crate::human::{category_family, family_of};
use crate::order::{
    as_ints, in_order, lemma_same_elements, lemma_sorted_views, sort, sorted_by, where_at, Ranked,
};
use crate::records::{opt_clone, opt_text, AccountRecord, TransactionRecord};
use crate::scenario::CashflowRow;
use crate::summary::holds;
use crate::sums::{full_weight, lemma_weight_take, total_of_all};
use crate::text::{
    contains, glue3, has_text, is_blank, lemma_precedes_asymmetric, lemma_precedes_total,
    lemma_precedes_transitive, less, lower_ascii, precedes, same, texts, to_lower_ascii, trim,
    trimmed,
};
use vstd::prelude::*;

verus! {

/// A line of a cash-flow report.
pub struct CashflowDetailItem {
    pub description: String,
    pub amount: Amount,
    pub category_id: Option<String>,
    pub account_id: Option<String>,
    pub transaction_id: Option<String>,
    pub transaction_date: Option<Date>,
    pub source: String,
}

/// What a line of a cash-flow report tells.
#[verifier::ext_equal]
pub struct ItemContent {
    pub description: Seq<char>,
    pub amount: Amount,
    pub category_id: Option<Seq<char>>,
    pub account_id: Option<Seq<char>>,
    pub transaction_id: Option<Seq<char>>,
    pub transaction_date: Option<Date>,
    pub source: Seq<char>,
}

impl View for CashflowDetailItem {
    type V = ItemContent;

    open spec fn view(&self) -> ItemContent {
        ItemContent {
            description: self.description@,
            amount: self.amount,
            category_id: opt_text(self.category_id),
            account_id: opt_text(self.account_id),
            transaction_id: opt_text(self.transaction_id),
            transaction_date: self.transaction_date,
            source: self.source@,
        }
    }
}

pub open spec fn item_view() -> spec_fn(CashflowDetailItem) -> ItemContent {
    |i: CashflowDetailItem| i@
}

pub open spec fn item_views(items: Seq<CashflowDetailItem>) -> Seq<ItemContent> {
    items.map_values(item_view())
}

/// The lines of a category and what they come to.
pub struct CashflowCategoryGroup {
    pub category_id: String,
    pub subtotal: Amount,
    pub transactions: u64,
    pub items: Vec<CashflowDetailItem>,
}

pub open spec fn size_of(a: Amount) -> int {
    abs(a.scaled())
}

proof fn lemma_not_behind(a: Seq<char>, b: Seq<char>, c: Seq<char>)
    ensures
        !precedes(b, a) && !precedes(c, b) ==> !precedes(c, a),
        !precedes(b, a) || !precedes(a, b),
{
    if precedes(b, a) {
        lemma_precedes_asymmetric(b, a);
    }
    if precedes(c, a) && !precedes(b, a) {
        lemma_precedes_total(a, b);
        if precedes(a, b) {
            lemma_precedes_transitive(c, a, b);
        }
    }
}

fn is_larger(a: &Amount, b: &Amount) -> (r: bool)
    ensures
        r == (size_of(*a) > size_of(*b)),
{
    b.abs().is_less(&a.abs())
}

/// The order of lines: the largest first; equal ones by description.
pub open spec fn item_le() -> spec_fn(ItemContent, ItemContent) -> bool {
    |a: ItemContent, b: ItemContent|
        size_of(a.amount) > size_of(b.amount) || (size_of(a.amount) == size_of(b.amount)
            && !precedes(b.description, a.description))
}

impl Ranked for CashflowDetailItem {
    /// The largest first; equal ones by description.
    open spec fn le(a: Self, b: Self) -> bool {
        item_le()(a@, b@)
    }

    proof fn le_total(a: Self, b: Self) {
        lemma_not_behind(a.description@, b.description@, a.description@);
    }

    proof fn le_transitive(a: Self, b: Self, c: Self) {
        lemma_not_behind(a.description@, b.description@, c.description@);
    }

    fn may_precede(&self, other: &Self) -> (r: bool) {
        if is_larger(&self.amount, &other.amount) {
            true
        } else if is_larger(&other.amount, &self.amount) {
            false
        } else {
            !less(other.description.as_str(), self.description.as_str())
        }
    }
}

impl Ranked for CashflowCategoryGroup {
    /// The largest first; equal ones by category.
    open spec fn le(a: Self, b: Self) -> bool {
        size_of(a.subtotal) > size_of(b.subtotal) || (size_of(a.subtotal) == size_of(b.subtotal)
            && !precedes(b.category_id@, a.category_id@))
    }

    proof fn le_total(a: Self, b: Self) {
        lemma_not_behind(a.category_id@, b.category_id@, a.category_id@);
    }

    proof fn le_transitive(a: Self, b: Self, c: Self) {
        lemma_not_behind(a.category_id@, b.category_id@, c.category_id@);
    }

    fn may_precede(&self, other: &Self) -> (r: bool) {
        if is_larger(&self.subtotal, &other.subtotal) {
            true
        } else if is_larger(&other.subtotal, &self.subtotal) {
            false
        } else {
            !less(other.category_id.as_str(), self.category_id.as_str())
        }
    }
}

// ---------------------------------------------------------------------------
// Groups by category

/// What a category comes to.
#[verifier::ext_equal]
pub struct GroupContent {
    pub subtotal: Amount,
    pub transactions: u64,
    pub items: Seq<ItemContent>,
}

impl View for CashflowCategoryGroup {
    type V = GroupContent;

    open spec fn view(&self) -> GroupContent {
        GroupContent {
            subtotal: self.subtotal,
            transactions: self.transactions,
            items: item_views(self.items@),
        }
    }
}

/// Whether no category has two groups.
pub open spec fn apart(groups: Seq<CashflowCategoryGroup>) -> bool {
    forall|i: int, j: int|
        0 <= i < j < groups.len() ==> (#[trigger] groups[i]).category_id@ != (
        #[trigger] groups[j]).category_id@
}

pub open spec fn has_group(groups: Seq<CashflowCategoryGroup>, key: Seq<char>, i: int) -> bool {
    0 <= i < groups.len() && groups[i].category_id@ == key
}

/// The groups by category.
pub open spec fn by_category(groups: Seq<CashflowCategoryGroup>) -> Map<Seq<char>, GroupContent> {
    Map::new(
        |key: Seq<char>| exists|i: int| has_group(groups, key, i),
        |key: Seq<char>| groups[choose|i: int| has_group(groups, key, i)]@,
    )
}

pub proof fn lemma_by_category(groups: Seq<CashflowCategoryGroup>, i: int)
    requires
        apart(groups),
        0 <= i < groups.len(),
    ensures
        by_category(groups).contains_key(groups[i].category_id@),
        by_category(groups)[groups[i].category_id@] == groups[i]@,
{
    let key = groups[i].category_id@;
    assert(has_group(groups, key, i));
    let j = choose|j: int| has_group(groups, key, j);
    if i < j {
        assert(groups[i].category_id@ != groups[j].category_id@);
    } else if j < i {
        assert(groups[j].category_id@ != groups[i].category_id@);
    }
}

pub open spec fn nothing() -> GroupContent {
    GroupContent { subtotal: zero(), transactions: 0, items: Seq::empty() }
}

pub open spec fn content_of(groups: Map<Seq<char>, GroupContent>, key: Seq<char>) -> GroupContent {
    if groups.contains_key(key) {
        groups[key]
    } else {
        nothing()
    }
}

/// The groups once more came to a category.
pub open spec fn with_more(
    groups: Map<Seq<char>, GroupContent>,
    key: Seq<char>,
    more: GroupContent,
) -> Map<Seq<char>, GroupContent> {
    let old = content_of(groups, key);
    groups.insert(
        key,
        GroupContent {
            subtotal: plus(old.subtotal, more.subtotal),
            transactions: (old.transactions + more.transactions) as u64,
            items: old.items + more.items,
        },
    )
}

/// The groups once an item came to a category.
pub open spec fn with_item(
    groups: Map<Seq<char>, GroupContent>,
    key: Seq<char>,
    item: ItemContent,
) -> Map<Seq<char>, GroupContent> {
    with_more(
        groups,
        key,
        GroupContent { subtotal: item.amount, transactions: 1, items: seq![item] },
    )
}

/// Whether the subtotals are within a size and the counts within a number.
pub open spec fn within(groups: Seq<CashflowCategoryGroup>, size: int, count: int) -> bool {
    forall|i: int|
        0 <= i < groups.len() ==> size_of((#[trigger] groups[i]).subtotal) <= size
            && groups[i].transactions <= count
}

fn find_group(groups: &Vec<CashflowCategoryGroup>, key: &str) -> (r: Option<usize>)
    ensures
        match r {
            Some(i) => has_group(groups@, key@, i as int),
            None => forall|i: int| !#[trigger] has_group(groups@, key@, i),
        },
{
    let mut i: usize = 0;
    while i < groups.len()
        invariant
            i <= groups.len(),
            forall|j: int| 0 <= j < i ==> !#[trigger] has_group(groups@, key@, j),
        decreases groups.len() - i,
    {
        if same(groups[i].category_id.as_str(), key) {
            return Some(i);
        }
        i = i + 1;
    }
    None
}

/// Adds more to a category.
pub(crate) fn add_to_group(
    groups: &mut Vec<CashflowCategoryGroup>,
    category_id: String,
    subtotal: Amount,
    transactions: u64,
    items: Vec<CashflowDetailItem>,
    Ghost(size): Ghost<int>,
    Ghost(count): Ghost<int>,
)
    requires
        apart(old(groups)@),
        within(old(groups)@, size, count),
        size >= 0,
        count >= 0,
        size + size_of(subtotal) <= limit(),
        count + transactions <= u64::MAX,
    ensures
        apart(final(groups)@),
        by_category(final(groups)@) == with_more(
            by_category(old(groups)@),
            category_id@,
            GroupContent { subtotal, transactions, items: item_views(items@) },
        ),
        within(final(groups)@, size + size_of(subtotal) + one(), count + transactions),
        final(groups)@.len() <= old(groups)@.len() + 1,
        size_of(by_category(final(groups)@)[category_id@].subtotal) <= size_of(
            content_of(by_category(old(groups)@), category_id@).subtotal,
        ) + size_of(subtotal) + one(),
{
    let ghost before = groups@;
    let ghost key = category_id@;
    let ghost more = GroupContent { subtotal, transactions, items: item_views(items@) };
    let mut extra = items;
    match find_group(groups, category_id.as_str()) {
        Some(i) => {
            let mut g = groups.remove(i);
            g.subtotal = g.subtotal.added(&subtotal);
            g.transactions = g.transactions + transactions;
            let ghost had = g.items@;
            let ghost got = extra@;
            g.items.append(&mut extra);
            assert(item_views(g.items@) =~= item_views(had) + item_views(got));
            groups.insert(i, g);
            proof {
                assert(groups@.len() == before.len());
                assert(groups@ =~= before.update(i as int, g));
                lemma_by_category(before, i as int);
                assert(apart(groups@)) by {
                    assert forall|a: int, b: int| 0 <= a < b < groups@.len() implies (
                    #[trigger] groups@[a]).category_id@ != (#[trigger] groups@[b]).category_id@ by {
                        assert(before[a].category_id@ != before[b].category_id@);
                    }
                }
                lemma_replaced(before, groups@, i as int, with_more(by_category(before), key, more));
            }
        },
        None => {
            let none = Amount::none();
            none.known();
            proof {
                broadcast use crate::amount::lemma_made;

                crate::amount::lemma_zero_scaled(none);
            }
            let g = CashflowCategoryGroup {
                category_id,
                subtotal: none.added(&subtotal),
                transactions,
                items: extra,
            };
            groups.push(g);
            proof {
                assert(Seq::<ItemContent>::empty() + more.items =~= more.items);
                assert(apart(groups@)) by {
                    assert forall|a: int, b: int| 0 <= a < b < groups@.len() implies (
                    #[trigger] groups@[a]).category_id@ != (#[trigger] groups@[b]).category_id@ by {
                        if b == before.len() {
                            assert(!has_group(before, key, a));
                        }
                    }
                }
                assert(!by_category(before).contains_key(key));
                lemma_appended(before, groups@, with_more(by_category(before), key, more));
            }
        },
    }
}

proof fn lemma_replaced(
    before: Seq<CashflowCategoryGroup>,
    after: Seq<CashflowCategoryGroup>,
    i: int,
    want: Map<Seq<char>, GroupContent>,
)
    requires
        apart(before),
        apart(after),
        after.len() == before.len(),
        0 <= i < after.len(),
        after[i].category_id@ == before[i].category_id@,
        forall|j: int| 0 <= j < after.len() && j != i ==> #[trigger] after[j] == before[j],
        want == by_category(before).insert(before[i].category_id@, after[i]@),
    ensures
        by_category(after) == want,
{
    assert forall|k: Seq<char>| #[trigger] by_category(after).contains_key(k)
        <==> want.contains_key(k) by {
        if by_category(after).contains_key(k) {
            let j = choose|j: int| has_group(after, k, j);
            assert(has_group(before, k, j));
        }
        if by_category(before).contains_key(k) {
            let j = choose|j: int| has_group(before, k, j);
            assert(has_group(after, k, j));
        }
        if k == before[i].category_id@ {
            assert(has_group(after, k, i));
        }
    }
    assert forall|k: Seq<char>| by_category(after).contains_key(k) implies #[trigger] by_category(
        after,
    )[k] == want[k] by {
        let j = choose|j: int| has_group(after, k, j);
        lemma_by_category(after, j);
        lemma_by_category(before, j);
        if j != i {
            assert(after[j] == before[j]);
            if i < j {
                assert(before[i].category_id@ != before[j].category_id@);
            } else {
                assert(before[j].category_id@ != before[i].category_id@);
            }
        }
    }
    assert(by_category(after) =~= want);
}

pub proof fn lemma_appended(
    before: Seq<CashflowCategoryGroup>,
    after: Seq<CashflowCategoryGroup>,
    want: Map<Seq<char>, GroupContent>,
)
    requires
        apart(before),
        apart(after),
        after.len() == before.len() + 1,
        forall|j: int| 0 <= j < before.len() ==> #[trigger] after[j] == before[j],
        want == by_category(before).insert(after.last().category_id@, after.last()@),
    ensures
        by_category(after) == want,
{
    let n = before.len() as int;
    assert forall|k: Seq<char>| #[trigger] by_category(after).contains_key(k)
        <==> want.contains_key(k) by {
        if by_category(after).contains_key(k) {
            let j = choose|j: int| has_group(after, k, j);
            if j < n {
                assert(after[j] == before[j]);
                assert(has_group(before, k, j));
            }
        }
        if by_category(before).contains_key(k) {
            let j = choose|j: int| has_group(before, k, j);
            assert(after[j] == before[j]);
            assert(has_group(after, k, j));
        }
        if k == after.last().category_id@ {
            assert(has_group(after, k, n));
        }
    }
    assert forall|k: Seq<char>| by_category(after).contains_key(k) implies #[trigger] by_category(
        after,
    )[k] == want[k] by {
        let j = choose|j: int| has_group(after, k, j);
        lemma_by_category(after, j);
        if j < n {
            assert(after[j] == before[j]);
            lemma_by_category(before, j);
            assert(after[j].category_id@ != after[n].category_id@);
        }
    }
    assert(by_category(after) =~= want);
}

/// Adds an item to a category.
pub(crate) fn add_cashflow_group_item(
    groups: &mut Vec<CashflowCategoryGroup>,
    category_id: String,
    item: CashflowDetailItem,
    Ghost(size): Ghost<int>,
    Ghost(count): Ghost<int>,
)
    requires
        apart(old(groups)@),
        within(old(groups)@, size, count),
        size >= 0,
        count >= 0,
        size + size_of(item.amount) <= limit(),
        count < u64::MAX,
    ensures
        apart(final(groups)@),
        by_category(final(groups)@) == with_item(by_category(old(groups)@), category_id@, item@),
        within(final(groups)@, size + size_of(item.amount) + one(), count + 1),
        final(groups)@.len() <= old(groups)@.len() + 1,
{
    let amount = item.amount;
    let ghost the_item = item;
    let mut items: Vec<CashflowDetailItem> = Vec::new();
    items.push(item);
    assert(item_views(items@) =~= seq![the_item@]);
    add_to_group(groups, category_id, amount, 1, items, Ghost(size), Ghost(count));
}

/// What a category comes to, its items in order.
pub open spec fn ordered_content(c: GroupContent) -> GroupContent {
    GroupContent {
        subtotal: c.subtotal,
        transactions: c.transactions,
        items: sorted_by(c.items, item_le()),
    }
}

/// Whether the list holds the groups in order, each with its items in order.
pub open spec fn lists_groups(
    list: Seq<CashflowCategoryGroup>,
    groups: Map<Seq<char>, GroupContent>,
) -> bool {
    &&& in_order(list)
    &&& apart(list)
    &&& by_category(list) == groups.map_values(|c: GroupContent| ordered_content(c))
}

fn order_items(groups: Vec<CashflowCategoryGroup>) -> (r: Vec<CashflowCategoryGroup>)
    requires
        apart(groups@),
    ensures
        apart(r@),
        r@.len() == groups@.len(),
        forall|i: int|
            0 <= i < r@.len() ==> (#[trigger] r@[i]).category_id == groups@[i].category_id
                && r@[i]@ == ordered_content(groups@[i]@),
{
    let ghost all = groups@;
    let n: usize = groups.len();
    let mut rest = groups;
    let mut out: Vec<CashflowCategoryGroup> = Vec::new();
    let mut i: usize = 0;
    while i < n
        invariant
            i <= n,
            n == all.len(),
            rest@ == all.skip(i as int),
            out@.len() == i,
            forall|j: int|
                0 <= j < i ==> (#[trigger] out@[j]).category_id == all[j].category_id && out@[j]@
                    == ordered_content(all[j]@),
        decreases n - i,
    {
        let g = rest.remove(0);
        assert(g == all[i as int]);
        assert(rest@ =~= all.skip(i + 1));
        proof {
            lemma_sorted_views(g.items@, item_view(), item_le());
        }
        let items = sort(g.items);
        out.push(
            CashflowCategoryGroup {
                category_id: g.category_id,
                subtotal: g.subtotal,
                transactions: g.transactions,
                items,
            },
        );
        i = i + 1;
    }
    assert(apart(out@)) by {
        assert forall|a: int, b: int| 0 <= a < b < out@.len() implies (
        #[trigger] out@[a]).category_id@ != (#[trigger] out@[b]).category_id@ by {
            assert(all[a].category_id@ != all[b].category_id@);
        }
    }
    out
}

proof fn lemma_map_ordered(
    before: Seq<CashflowCategoryGroup>,
    after: Seq<CashflowCategoryGroup>,
)
    requires
        apart(before),
        apart(after),
        forall|i: int|
            0 <= i < before.len() ==> exists|j: int|
                0 <= j < after.len() && (#[trigger] after[j]).category_id@ == (
                #[trigger] before[i]).category_id@,
        forall|j: int|
            0 <= j < after.len() ==> exists|i: int|
                0 <= i < before.len() && (#[trigger] before[i]).category_id@ == (
                #[trigger] after[j]).category_id@ && after[j]@ == ordered_content(before[i]@),
    ensures
        by_category(after) == by_category(before).map_values(
            |c: GroupContent| ordered_content(c),
        ),
{
    let want = by_category(before).map_values(|c: GroupContent| ordered_content(c));
    assert forall|k: Seq<char>| #[trigger] by_category(after).contains_key(k)
        <==> want.contains_key(k) by {
        if by_category(after).contains_key(k) {
            let j = choose|j: int| has_group(after, k, j);
            let i = choose|i: int|
                0 <= i < before.len() && (#[trigger] before[i]).category_id@
                    == after[j].category_id@ && after[j]@ == ordered_content(before[i]@);
            assert(has_group(before, k, i));
        }
        if by_category(before).contains_key(k) {
            let i = choose|i: int| has_group(before, k, i);
            let j = choose|j: int|
                0 <= j < after.len() && (#[trigger] after[j]).category_id@
                    == before[i].category_id@;
            assert(has_group(after, k, j));
        }
    }
    assert forall|k: Seq<char>| by_category(after).contains_key(k) implies #[trigger] by_category(
        after,
    )[k] == want[k] by {
        let j = choose|j: int| has_group(after, k, j);
        let i = choose|i: int|
            0 <= i < before.len() && (#[trigger] before[i]).category_id@ == after[j].category_id@
                && after[j]@ == ordered_content(before[i]@);
        lemma_by_category(after, j);
        lemma_by_category(before, i);
    }
    assert(by_category(after) =~= want);
}

/// The groups in order: the largest first, each with its largest items first.
pub fn sorted_cashflow_groups(groups: Vec<CashflowCategoryGroup>) -> (r: Vec<
    CashflowCategoryGroup,
>)
    requires
        apart(groups@),
    ensures
        lists_groups(r@, by_category(groups@)),
        r@.len() == groups@.len(),
        forall|size: int, count: int|
            within(groups@, size, count) ==> #[trigger] within(r@, size, count),
{
    let ghost before = groups@;
    let list = order_items(groups);
    let ghost a = list@;
    let r = sort(list);
    proof {
        let b = r@;
        assert(a.no_duplicates()) by {
            assert forall|i: int, j: int|
                0 <= i < a.len() && 0 <= j < a.len() && i != j implies a[i] != a[j] by {
                if i < j {
                    assert(a[i].category_id@ != a[j].category_id@);
                } else {
                    assert(a[j].category_id@ != a[i].category_id@);
                }
            }
        }
        lemma_same_elements(a, b);
        assert(apart(b)) by {
            assert forall|x: int, y: int| 0 <= x < y < b.len() implies (
            #[trigger] b[x]).category_id@ != (#[trigger] b[y]).category_id@ by {
                assert(b.contains(b[x]) && b.contains(b[y]));
                let u = choose|u: int| 0 <= u < a.len() && a[u] == b[x];
                let v = choose|v: int| 0 <= v < a.len() && a[v] == b[y];
                assert(b[x] != b[y]);
                if u < v {
                    assert(a[u].category_id@ != a[v].category_id@);
                } else {
                    assert(a[v].category_id@ != a[u].category_id@);
                }
            }
        }
        assert forall|i: int| 0 <= i < before.len() implies exists|j: int|
            0 <= j < b.len() && (#[trigger] b[j]).category_id@ == (
            #[trigger] before[i]).category_id@ by {
            assert(a[i].category_id == before[i].category_id);
            assert(a.contains(a[i]));
            assert(b.contains(a[i]));
            let j = choose|j: int| 0 <= j < b.len() && b[j] == a[i];
            assert(b[j].category_id@ == before[i].category_id@);
        }
        assert forall|j: int| 0 <= j < b.len() implies exists|i: int|
            0 <= i < before.len() && (#[trigger] before[i]).category_id@ == (
            #[trigger] b[j]).category_id@ && b[j]@ == ordered_content(before[i]@) by {
            assert(b.contains(b[j]));
            let i = choose|i: int| 0 <= i < a.len() && a[i] == b[j];
            assert(a[i].category_id == before[i].category_id);
            assert(before[i].category_id@ == b[j].category_id@);
        }
        lemma_map_ordered(before, b);
        assert forall|size: int, count: int| within(before, size, count) implies #[trigger] within(
            b,
            size,
            count,
        ) by {
            assert forall|x: int| 0 <= x < b.len() implies size_of((#[trigger] b[x]).subtotal)
                <= size && b[x].transactions <= count by {
                assert(b.contains(b[x]));
                let u = choose|u: int| 0 <= u < a.len() && a[u] == b[x];
                assert(a[u]@ == ordered_content(before[u]@));
                assert(size_of(before[u].subtotal) <= size);
            }
        }
    }
    r
}

// ---------------------------------------------------------------------------
// What came in and went out

/// The first and the last day of a month.
pub fn month_bounds(month_ref: &str) -> (r: Result<(Date, Date), String>)
    ensures
        match r {
            Ok((start, end)) => {
                &&& start.valid()
                &&& end.valid()
                &&& month_start(month_ref@) == Some((start.y(), start.m(), start.d()))
                &&& shifted_month(start, 1) is Some
                &&& end.number() == shifted_month(start, 1)->0.number() - 1
            },
            Err(e) => (month_start(month_ref@) is None && e@ == "month inválido: "@ + month_ref@
                + " (esperado YYYY-MM)"@) || exists|d: Date|
                {
                    &&& d.valid()
                    &&& month_start(month_ref@) == Some((d.y(), d.m(), d.d()))
                    &&& #[trigger] shifted_month(d, 1) is None
                    &&& e@ == "Falha ao calcular mês deslocado a partir de "@
                        + crate::date::iso_text(d)
                },
        },
{
    let start = match parse_month_ref(month_ref) {
        Ok(d) => d,
        Err(e) => {
            return Err(e);
        },
    };
    let next = match shift_month(&start, 1) {
        Ok(d) => d,
        Err(e) => {
            assert(shifted_month(start, 1) is None);
            return Err(e);
        },
    };
    match next.plus_days(-1) {
        Some(end) => Ok((start, end)),
        None => {
            next.known();
            start.known();
            proof {
                lemma_day_in_calendar(start);
                lemma_day_in_calendar(next);
                assert(shifted_month(start, 1) == Some(next));
                broadcast use crate::date::lemma_date_of;

                crate::date::law_dates_ordered_by_number(start, next);
            }
            Err("Falha ao calcular fim do mês".to_string())
        },
    }
}

/// Two rows of a month added; the balances are those of the first, moved by the second.
pub open spec fn combined(month: Seq<char>, r: CashflowRow, a: CashflowRow, b: CashflowRow) -> bool {
    &&& r.month_ref@ == month
    &&& r.income == plus(a.income, b.income)
    &&& r.expenses == plus(a.expenses, b.expenses)
    &&& r.expense_reduction == plus(a.expense_reduction, b.expense_reduction)
    &&& r.net == plus(a.net, b.net)
    &&& r.opening_balance == a.opening_balance
    &&& r.closing_balance == (match a.closing_balance {
        Some(c) => Some(plus(c, b.net)),
        None => None,
    })
}

pub open spec fn sum_in_range(a: Amount, b: Amount) -> bool {
    size_of(a) + size_of(b) <= limit()
}

pub open spec fn rows_fit(a: CashflowRow, b: CashflowRow) -> bool {
    &&& sum_in_range(a.income, b.income)
    &&& sum_in_range(a.expenses, b.expenses)
    &&& sum_in_range(a.expense_reduction, b.expense_reduction)
    &&& sum_in_range(a.net, b.net)
    &&& match a.closing_balance {
        Some(c) => sum_in_range(c, b.net),
        None => true,
    }
}

/// Adds two rows of a month.
pub fn combine_cashflow_rows(month_ref: &str, left: &CashflowRow, right: &CashflowRow) -> (r:
    CashflowRow)
    requires
        rows_fit(*left, *right),
    ensures
        combined(month_ref@, r, *left, *right),
{
    let closing_balance = match left.closing_balance {
        Some(c) => Some(c.added(&right.net)),
        None => None,
    };
    CashflowRow {
        month_ref: month_ref.to_string(),
        income: left.income.added(&right.income),
        expenses: left.expenses.added(&right.expenses),
        expense_reduction: left.expense_reduction.added(&right.expense_reduction),
        net: left.net.added(&right.net),
        opening_balance: left.opening_balance,
        closing_balance,
    }
}

/// The category under which a row is grouped.
pub open spec fn category_key(id: Option<String>) -> Seq<char> {
    match id {
        Some(c) => if trimmed(c@).len() == 0 {
            "sem-categoria"@
        } else {
            c@
        },
        None => "sem-categoria"@,
    }
}

/// The category under which a row is grouped.
pub fn cashflow_category_id(category_id: &Option<String>) -> (r: String)
    ensures
        r@ == category_key(*category_id),
{
    match category_id {
        Some(c) => if is_blank(c.as_str()) {
            "sem-categoria".to_string()
        } else {
            c.clone()
        },
        None => "sem-categoria".to_string(),
    }
}

/// What a transaction tells in a report.
pub open spec fn item_of(tx: TransactionRecord, source: Seq<char>) -> ItemContent {
    ItemContent {
        description: trimmed(tx.shown()),
        amount: tx.amount,
        category_id: opt_text(tx.category_id),
        account_id: opt_text(tx.account_id),
        transaction_id: Some(tx.transaction_id@),
        transaction_date: Some(tx.transaction_date),
        source,
    }
}

/// What a transaction tells in a report.
pub fn cashflow_item_from_transaction(tx: &TransactionRecord, source: &str) -> (r:
    CashflowDetailItem)
    ensures
        r@ == item_of(*tx, source@),
{
    CashflowDetailItem {
        description: trim(tx.display_description()),
        amount: tx.amount,
        category_id: opt_clone(&tx.category_id),
        account_id: opt_clone(&tx.account_id),
        transaction_id: Some(tx.transaction_id.clone()),
        transaction_date: Some(tx.transaction_date),
        source: source.to_string(),
    }
}

pub open spec fn or_nothing(o: Option<String>) -> Seq<char> {
    match o {
        Some(s) => s@,
        None => ""@,
    }
}

/// Whether a transaction pays a card bill: an expense that its category or its texts
/// name so.
pub open spec fn pays_card(tx: TransactionRecord) -> bool {
    let all = lower_ascii(
        tx.raw_description@ + " "@ + or_nothing(tx.description) + " "@ + or_nothing(
            tx.merchant_name,
        ),
    );
    tx.amount.scaled() < 0 && ((tx.category_id is Some && (has_text(
        tx.category_id->0@,
        "credit-card-payment"@,
    ) || has_text(tx.category_id->0@, "pagamento-fatura"@))) || has_text(
        all,
        "pagamento de fatura"@,
    ) || has_text(all, "pagamento cart"@) || has_text(all, "pagamento de cart"@) || has_text(
        all,
        "nubank pagamento"@,
    ))
}

/// Whether a transaction pays a card bill.
pub fn is_credit_card_payment_transaction(tx: &TransactionRecord) -> (r: bool)
    ensures
        r == pays_card(*tx),
{
    if !tx.amount.is_below_zero() {
        return false;
    }
    match &tx.category_id {
        Some(c) => {
            if contains(c.as_str(), "credit-card-payment") || contains(
                c.as_str(),
                "pagamento-fatura",
            ) {
                return true;
            }
        },
        None => {},
    }
    let description = match &tx.description {
        Some(d) => d.as_str(),
        None => "",
    };
    let merchant = match &tx.merchant_name {
        Some(d) => d.as_str(),
        None => "",
    };
    let head = glue3(tx.raw_description.as_str(), " ", description);
    let all = to_lower_ascii(glue3(head.as_str(), " ", merchant).as_str());
    contains(all.as_str(), "pagamento de fatura") || contains(all.as_str(), "pagamento cart")
        || contains(all.as_str(), "pagamento de cart") || contains(
        all.as_str(),
        "nubank pagamento",
    )
}

/// Whether a transaction is a payment that arrived on the card's side.
pub open spec fn arrives_on_card(tx: TransactionRecord) -> bool {
    tx.amount.scaled() > 0 && has_text(lower_ascii(tx.raw_description@), "pagamento recebido"@)
}

/// Whether a transaction is a payment that arrived on the card's side.
pub fn is_card_side_bill_payment(tx: &TransactionRecord) -> (r: bool)
    ensures
        r == arrives_on_card(*tx),
{
    tx.amount.is_above_zero() && contains(
        to_lower_ascii(tx.raw_description.as_str()).as_str(),
        "pagamento recebido",
    )
}

/// The last account with the identifier.
pub open spec fn last_account(accounts: Seq<AccountRecord>, id: Seq<char>) -> Option<AccountRecord>
    decreases accounts.len(),
{
    if accounts.len() == 0 {
        None
    } else if accounts.last().account_id@ == id {
        Some(accounts.last())
    } else {
        last_account(accounts.drop_last(), id)
    }
}

pub(crate) fn find_last_account<'a>(accounts: &'a Vec<AccountRecord>, id: &str) -> (r: Option<
    &'a AccountRecord,
>)
    ensures
        match r {
            Some(a) => last_account(accounts@, id@) == Some(*a),
            None => last_account(accounts@, id@) is None,
        },
{
    let mut i: usize = accounts.len();
    assert(accounts@.take(i as int) =~= accounts@);
    while i > 0
        invariant
            i <= accounts.len(),
            last_account(accounts@, id@) == last_account(accounts@.take(i as int), id@),
        decreases i,
    {
        assert(accounts@.take(i as int).drop_last() =~= accounts@.take(i - 1));
        assert(accounts@.take(i as int).last() == accounts@[i - 1]);
        if same(accounts[i - 1].account_id.as_str(), id) {
            return Some(&accounts[i - 1]);
        }
        i = i - 1;
    }
    None
}

/// Whether the transaction is on a credit card.
pub open spec fn on_credit(tx: TransactionRecord, accounts: Seq<AccountRecord>) -> bool {
    tx.account_id is Some && (match last_account(accounts, tx.account_id->0@) {
        Some(a) => a.account_type@ == "credit"@,
        None => false,
    })
}

pub(crate) fn is_on_credit(tx: &TransactionRecord, accounts: &Vec<AccountRecord>) -> (r: bool)
    ensures
        r == on_credit(*tx, accounts@),
{
    match &tx.account_id {
        Some(id) => match find_last_account(accounts, id.as_str()) {
            Some(a) => same(a.account_type.as_str(), "credit"),
            None => false,
        },
        None => false,
    }
}

/// Whether the transaction has an internal category.
pub open spec fn is_internal(tx: TransactionRecord, internal: Seq<Seq<char>>) -> bool {
    tx.category_id is Some && internal.contains(tx.category_id->0@)
}

pub(crate) fn has_internal_category(tx: &TransactionRecord, internal: &Vec<String>) -> (r: bool)
    ensures
        r == is_internal(*tx, texts(internal@)),
{
    match &tx.category_id {
        Some(c) => holds(internal, c.as_str()),
        None => false,
    }
}

/// What a transaction counts as.
#[derive(Clone, Copy, Debug, PartialEq, Eq, Structural)]
pub enum FlowKind {
    CardPayment,
    Skipped,
    Income,
    Expense,
}

/// What a transaction counts as: a card payment; nothing, on a credit card or with an
/// internal category; else income or an expense by its sign.
pub open spec fn kind_of(
    tx: TransactionRecord,
    accounts: Seq<AccountRecord>,
    internal: Seq<Seq<char>>,
) -> FlowKind {
    if pays_card(tx) {
        FlowKind::CardPayment
    } else if on_credit(tx, accounts) || is_internal(tx, internal) {
        FlowKind::Skipped
    } else if tx.amount.scaled() >= 0 {
        FlowKind::Income
    } else {
        FlowKind::Expense
    }
}

/// What a transaction counts as.
pub fn flow_kind(
    tx: &TransactionRecord,
    accounts: &Vec<AccountRecord>,
    internal_categories: &Vec<String>,
) -> (r: FlowKind)
    ensures
        r == kind_of(*tx, accounts@, texts(internal_categories@)),
{
    if is_credit_card_payment_transaction(tx) {
        FlowKind::CardPayment
    } else if is_on_credit(tx, accounts) || has_internal_category(tx, internal_categories) {
        FlowKind::Skipped
    } else if !tx.amount.is_below_zero() {
        FlowKind::Income
    } else {
        FlowKind::Expense
    }
}

/// The groups of the first `n` transactions of one kind.
pub open spec fn groups_of_kind(
    rows: Seq<TransactionRecord>,
    accounts: Seq<AccountRecord>,
    internal: Seq<Seq<char>>,
    kind: FlowKind,
    n: int,
) -> Map<Seq<char>, GroupContent>
    decreases n,
{
    if n <= 0 {
        Map::empty()
    } else {
        let before = groups_of_kind(rows, accounts, internal, kind, n - 1);
        let tx = rows[n - 1];
        if kind_of(tx, accounts, internal) == kind {
            with_item(before, category_key(tx.category_id), item_of(tx, "transaction"@))
        } else {
            before
        }
    }
}

/// Whether the transaction at a position pays a card bill.
pub open spec fn payment_at(rows: Seq<TransactionRecord>) -> spec_fn(int) -> bool {
    |i: int| pays_card(rows[i])
}

pub open spec fn tx_amounts(rows: Seq<TransactionRecord>) -> Seq<Amount> {
    rows.map_values(|tx: TransactionRecord| tx.amount)
}

/// What came in, what went out, and where card bills were paid.
pub struct CashflowActualParts {
    pub income_groups: Vec<CashflowCategoryGroup>,
    pub expense_groups: Vec<CashflowCategoryGroup>,
    pub card_payments: Vec<usize>,
}

pub proof fn lemma_no_groups()
    ensures
        by_category(Seq::<CashflowCategoryGroup>::empty()) == Map::<
            Seq<char>,
            GroupContent,
        >::empty(),
{
    let none = Seq::<CashflowCategoryGroup>::empty();
    assert forall|k: Seq<char>| !#[trigger] by_category(none).contains_key(k) by {
        if by_category(none).contains_key(k) {
            let i = choose|i: int| has_group(none, k, i);
            assert(has_group(none, k, i));
        }
    }
    assert(by_category(none) =~= Map::<Seq<char>, GroupContent>::empty());
}

/// Groups the transactions of a month.
pub fn collect_cashflow_actual_parts(
    rows: &Vec<TransactionRecord>,
    accounts: &Vec<AccountRecord>,
    internal_categories: &Vec<String>,
) -> (r: CashflowActualParts)
    requires
        full_weight(tx_amounts(rows@)) <= limit(),
    ensures
        ({
            let n = rows@.len() as int;
            let internal = texts(internal_categories@);
            &&& apart(r.income_groups@)
            &&& by_category(r.income_groups@) == groups_of_kind(
                rows@,
                accounts@,
                internal,
                FlowKind::Income,
                n,
            )
            &&& apart(r.expense_groups@)
            &&& by_category(r.expense_groups@) == groups_of_kind(
                rows@,
                accounts@,
                internal,
                FlowKind::Expense,
                n,
            )
            &&& as_ints(r.card_payments@) == where_at(n, payment_at(rows@))
            &&& within(r.income_groups@, full_weight(tx_amounts(rows@)), n)
            &&& within(r.expense_groups@, full_weight(tx_amounts(rows@)), n)
        }),
{
    let ghost internal = texts(internal_categories@);
    let ghost amounts = tx_amounts(rows@);
    let mut income: Vec<CashflowCategoryGroup> = Vec::new();
    let mut expense: Vec<CashflowCategoryGroup> = Vec::new();
    let mut payments: Vec<usize> = Vec::new();
    let mut i: usize = 0;
    proof {
        lemma_no_groups();
        assert(income@ =~= Seq::<CashflowCategoryGroup>::empty());
        assert(expense@ =~= Seq::<CashflowCategoryGroup>::empty());
        assert(as_ints(payments@) =~= where_at(0, payment_at(rows@)));
        lemma_weight_take(amounts, 0);
    }
    while i < rows.len()
        invariant
            i <= rows.len(),
            internal == texts(internal_categories@),
            amounts == tx_amounts(rows@),
            full_weight(amounts) <= limit(),
            apart(income@),
            apart(expense@),
            by_category(income@) == groups_of_kind(
                rows@,
                accounts@,
                internal,
                FlowKind::Income,
                i as int,
            ),
            by_category(expense@) == groups_of_kind(
                rows@,
                accounts@,
                internal,
                FlowKind::Expense,
                i as int,
            ),
            as_ints(payments@) == where_at(i as int, payment_at(rows@)),
            within(income@, full_weight(amounts.take(i as int)), i as int),
            within(expense@, full_weight(amounts.take(i as int)), i as int),
        decreases rows.len() - i,
    {
        let ghost w = full_weight(amounts.take(i as int));
        proof {
            assert(amounts.take(i + 1).drop_last() =~= amounts.take(i as int));
            lemma_weight_take(amounts, i as int);
            lemma_weight_take(amounts, i + 1);
            assert(full_weight(amounts.take(i + 1)) == w + size_of(rows@[i as int].amount) + one());
        }
        let tx = &rows[i];
        match flow_kind(tx, accounts, internal_categories) {
            FlowKind::CardPayment => {
                let ghost now = as_ints(payments@);
                payments.push(i);
                assert(as_ints(payments@) =~= now.push(i as int));
            },
            FlowKind::Skipped => {},
            FlowKind::Income => {
                add_cashflow_group_item(
                    &mut income,
                    cashflow_category_id(&tx.category_id),
                    cashflow_item_from_transaction(tx, "transaction"),
                    Ghost(w),
                    Ghost(i as int),
                );
            },
            FlowKind::Expense => {
                add_cashflow_group_item(
                    &mut expense,
                    cashflow_category_id(&tx.category_id),
                    cashflow_item_from_transaction(tx, "transaction"),
                    Ghost(w),
                    Ghost(i as int),
                );
            },
        }
        i = i + 1;
    }
    assert(amounts.take(i as int) =~= amounts);
    CashflowActualParts { income_groups: income, expense_groups: expense, card_payments: payments }
}

/// A transaction that pays a card bill counts neither as income nor as an expense,
/// so a bill and its payment are not both counted.
pub proof fn law_card_payment_not_counted(
    tx: TransactionRecord,
    accounts: Seq<AccountRecord>,
    internal: Seq<Seq<char>>,
)
    requires
        pays_card(tx),
    ensures
        kind_of(tx, accounts, internal) == FlowKind::CardPayment,
{
}

// ---------------------------------------------------------------------------
// Forecasts

/// What was planned and what happened.
pub struct ForecastVsActualRow {
    pub month_ref: String,
    pub forecast_id: String,
    pub category_id: Option<String>,
    pub account_id: Option<String>,
    pub description: String,
    pub forecast_amount: Amount,
    pub actual_amount: Amount,
    pub variance: Amount,
    pub due_date: Option<Date>,
    pub status: String,
}

/// Whether a plan with the status does not count any more.
pub open spec fn inactive_status(status: Seq<char>) -> bool {
    let s = lower_ascii(trimmed(status));
    s == "cancelled"@ || s == "canceled"@ || s == "inactive"@ || s == "deleted"@
}

/// Whether a plan with the status does not count any more.
pub fn inactive_forecast_status(status: &str) -> (r: bool)
    ensures
        r == inactive_status(status@),
{
    let s = to_lower_ascii(trim(status).as_str());
    same(s.as_str(), "cancelled") || same(s.as_str(), "canceled") || same(s.as_str(), "inactive")
        || same(s.as_str(), "deleted")
}

/// Whether a category is one of income.
pub open spec fn income_category(id: Option<String>) -> bool {
    id is Some && (family_of(id->0@) == Some("receitas"@) || family_of(id->0@) == Some("salario"@)
        || has_text(lower_ascii(id->0@), "receita"@) || has_text(lower_ascii(id->0@), "income"@)
        || has_text(lower_ascii(id->0@), "salary"@))
}

/// Whether a category is one of income.
pub fn is_income_category(category_id: &Option<String>) -> (r: bool)
    ensures
        r == income_category(*category_id),
{
    match category_id {
        Some(id) => {
            let by_family = match category_family(id.as_str()) {
                Some(f) => same(f.as_str(), "receitas") || same(f.as_str(), "salario"),
                None => false,
            };
            let low = to_lower_ascii(id.as_str());
            by_family || contains(low.as_str(), "receita") || contains(low.as_str(), "income")
                || contains(low.as_str(), "salary")
        },
        None => false,
    }
}

/// What is left of a plan, with its sign: what is planned less what happened.
pub open spec fn remaining_of(row: ForecastVsActualRow) -> Amount {
    minus(magnitude(row.forecast_amount), magnitude(row.actual_amount))
}

/// The group and the item that what is left of a plan makes, where it is active and
/// something is left.
pub open spec fn forecast_item(row: ForecastVsActualRow) -> Option<(Seq<char>, ItemContent)> {
    let left = remaining_of(row);
    if inactive_status(row.status@) || left.scaled() <= 0 {
        None
    } else {
        Some(
            (
                category_key(row.category_id),
                ItemContent {
                    description: row.description@,
                    amount: if income_category(row.category_id) {
                        left
                    } else {
                        negated(left)
                    },
                    category_id: opt_text(row.category_id),
                    account_id: opt_text(row.account_id),
                    transaction_id: Some(row.forecast_id@),
                    transaction_date: row.due_date,
                    source: "forecast"@,
                },
            ),
        )
    }
}

/// The group and the item that what is left of a plan makes.
pub fn cashflow_forecast_group_item(row: &ForecastVsActualRow) -> (r: Option<
    (String, CashflowDetailItem),
>)
    ensures
        match r {
            Some((key, item)) => forecast_item(*row) == Some((key@, item@)) && size_of(item.amount)
                <= size_of(row.forecast_amount) + size_of(row.actual_amount) + one(),
            None => forecast_item(*row) is None,
        },
{
    if inactive_forecast_status(row.status.as_str()) {
        return None;
    }
    row.forecast_amount.known();
    row.actual_amount.known();
    proof {
        crate::amount::lemma_in_limit(row.forecast_amount);
        crate::amount::lemma_in_limit(row.actual_amount);
    }
    let left = row.forecast_amount.abs().subtracted(&row.actual_amount.abs());
    if !left.is_above_zero() {
        return None;
    }
    let amount = if is_income_category(&row.category_id) {
        left
    } else {
        left.neg()
    };
    Some(
        (
            cashflow_category_id(&row.category_id),
            CashflowDetailItem {
                description: row.description.clone(),
                amount,
                category_id: opt_clone(&row.category_id),
                account_id: opt_clone(&row.account_id),
                transaction_id: Some(row.forecast_id.clone()),
                transaction_date: row.due_date,
                source: "forecast".to_string(),
            },
        ),
    )
}

/// The groups that what is left of the first `n` plans makes.
pub open spec fn forecast_groups(rows: Seq<ForecastVsActualRow>, n: int) -> Map<
    Seq<char>,
    GroupContent,
>
    decreases n,
{
    if n <= 0 {
        Map::empty()
    } else {
        let before = forecast_groups(rows, n - 1);
        match forecast_item(rows[n - 1]) {
            Some((key, item)) => with_item(before, key, item),
            None => before,
        }
    }
}

pub open spec fn planned_amounts(rows: Seq<ForecastVsActualRow>) -> Seq<Amount> {
    rows.map_values(|r: ForecastVsActualRow| r.forecast_amount)
}

pub open spec fn actual_amounts(rows: Seq<ForecastVsActualRow>) -> Seq<Amount> {
    rows.map_values(|r: ForecastVsActualRow| r.actual_amount)
}

/// Groups what is left of the plans of a month.
pub fn cashflow_forecast_groups(rows: &Vec<ForecastVsActualRow>) -> (r: Vec<CashflowCategoryGroup>)
    requires
        full_weight(planned_amounts(rows@)) + full_weight(actual_amounts(rows@)) <= limit(),
    ensures
        lists_groups(r@, forecast_groups(rows@, rows@.len() as int)),
{
    let ghost a = planned_amounts(rows@);
    let ghost b = actual_amounts(rows@);
    let mut groups: Vec<CashflowCategoryGroup> = Vec::new();
    let mut i: usize = 0;
    proof {
        lemma_no_groups();
        assert(groups@ =~= Seq::<CashflowCategoryGroup>::empty());
        lemma_weight_take(a, 0);
        lemma_weight_take(b, 0);
    }
    while i < rows.len()
        invariant
            i <= rows.len(),
            a == planned_amounts(rows@),
            b == actual_amounts(rows@),
            full_weight(a) + full_weight(b) <= limit(),
            apart(groups@),
            by_category(groups@) == forecast_groups(rows@, i as int),
            within(
                groups@,
                full_weight(a.take(i as int)) + full_weight(b.take(i as int)),
                i as int,
            ),
        decreases rows.len() - i,
    {
        let ghost w = full_weight(a.take(i as int)) + full_weight(b.take(i as int));
        proof {
            assert(a.take(i + 1).drop_last() =~= a.take(i as int));
            assert(b.take(i + 1).drop_last() =~= b.take(i as int));
            lemma_weight_take(a, i as int);
            lemma_weight_take(b, i as int);
            lemma_weight_take(a, i + 1);
            lemma_weight_take(b, i + 1);
            assert(full_weight(a.take(i + 1)) == full_weight(a.take(i as int)) + size_of(
                rows@[i as int].forecast_amount,
            ) + one());
            assert(full_weight(b.take(i + 1)) == full_weight(b.take(i as int)) + size_of(
                rows@[i as int].actual_amount,
            ) + one());
        }
        match cashflow_forecast_group_item(&rows[i]) {
            Some((key, item)) => {
                add_cashflow_group_item(&mut groups, key, item, Ghost(w), Ghost(i as int));
            },
            None => {},
        }
        i = i + 1;
    }
    sorted_cashflow_groups(groups)
}

/// What is left of a plan is never counted where as much already happened.
pub proof fn law_fulfilled_plan_not_counted(row: ForecastVsActualRow)
    requires
        remaining_of(row).scaled() <= 0,
    ensures
        forecast_item(row) is None,
{
}

/// The subtotals at or above zero.
pub open spec fn gains(groups: Seq<CashflowCategoryGroup>) -> Seq<Amount>
    decreases groups.len(),
{
    if groups.len() == 0 {
        Seq::empty()
    } else if groups.last().subtotal.scaled() >= 0 {
        gains(groups.drop_last()).push(groups.last().subtotal)
    } else {
        gains(groups.drop_last())
    }
}

/// The subtotals below zero, without their sign.
pub open spec fn losses(groups: Seq<CashflowCategoryGroup>) -> Seq<Amount>
    decreases groups.len(),
{
    if groups.len() == 0 {
        Seq::empty()
    } else if groups.last().subtotal.scaled() >= 0 {
        losses(groups.drop_last())
    } else {
        losses(groups.drop_last()).push(negated(groups.last().subtotal))
    }
}

/// What the groups of a forecast come to.
pub fn summarize_forecast_groups(month_ref: &str, forecast: &Vec<CashflowCategoryGroup>) -> (r:
    CashflowRow)
    requires
        full_weight(gains(forecast@)) + full_weight(losses(forecast@)) <= limit(),
    ensures
        r.month_ref@ == month_ref@,
        r.income == sum_of(gains(forecast@)),
        r.expenses == sum_of(losses(forecast@)),
        r.expense_reduction == zero(),
        r.net == minus(r.income, r.expenses),
        r.opening_balance is None,
        r.closing_balance is None,
{
    let mut up: Vec<Amount> = Vec::new();
    let mut down: Vec<Amount> = Vec::new();
    let mut i: usize = 0;
    assert(forecast@.take(0) =~= Seq::<CashflowCategoryGroup>::empty());
    while i < forecast.len()
        invariant
            i <= forecast.len(),
            up@ == gains(forecast@.take(i as int)),
            down@ == losses(forecast@.take(i as int)),
        decreases forecast.len() - i,
    {
        assert(forecast@.take(i + 1).drop_last() =~= forecast@.take(i as int));
        if !forecast[i].subtotal.is_below_zero() {
            up.push(forecast[i].subtotal);
        } else {
            down.push(forecast[i].subtotal.neg());
        }
        i = i + 1;
    }
    assert(forecast@.take(i as int) =~= forecast@);
    proof {
        lemma_weight_take(up@, 0);
        lemma_weight_take(down@, 0);
    }
    let income = total_of_all(&up);
    let expenses = total_of_all(&down);
    let net = income.subtracted(&expenses);
    CashflowRow {
        month_ref: month_ref.to_string(),
        income,
        expenses,
        expense_reduction: Amount::none(),
        net,
        opening_balance: None,
        closing_balance: None,
    }
}

} // verus!
