//! How sound the stored transactions are.

use crate::amount::{magnitude, Amount};
use crate::date::{iso, iso_text, Date};
use crate::description::{descriptions_look_related, related};
use crate::money::{decimal_text, plain_text};
use crate::order::{
    as_ints, group_by_key, groups_of, in_order, lemma_same_elements, positions, sort, sorted,
    Ranked,
};
use crate::records::{opt_clone, opt_text, same_option};
use crate::text::{
    contains_char, digits, glue3, lemma_precedes_asymmetric, lemma_precedes_irreflexive,
    lemma_precedes_total, lemma_precedes_transitive, less, number, precedes, same, texts,
};
use vstd::prelude::*;

verus! {

/// A transaction as the pulse lists it.
pub struct PulseItem {
    pub transaction_id: String,
    pub account_id: Option<String>,
    pub account_label: Option<String>,
    pub transaction_date: Date,
    pub description: String,
    pub amount: Amount,
    pub category_id: Option<String>,
    pub source: String,
    pub context: Option<String>,
}

/// The first day of a window of that many days that ends today.
pub fn window_start(today: &Date, days: i64, message: &str) -> (r: Result<Date, String>)
    requires
        -crate::date::MOST_DAYS <= days - 1 <= crate::date::MOST_DAYS,
    ensures
        match r {
            Ok(d) => d.valid() && d.number() == today.number() - (days - 1),
            Err(e) => !crate::date::in_calendar(today.number() - (days - 1)) && e@ == message@,
        },
{
    match today.plus_days(-(days - 1)) {
        Some(d) => Ok(d),
        None => Err(message.to_string()),
    }
}

// ---------------------------------------------------------------------------
// Flat categories

/// Whether a category has no hierarchy.
pub open spec fn flat(id: Seq<char>) -> bool {
    !id.contains(':')
}

/// Whether a category has no hierarchy.
pub fn is_flat_category(category_id: &str) -> (r: bool)
    ensures
        r == flat(category_id@),
{
    !contains_char(category_id, ':')
}

/// A category without hierarchy and how many rows have it.
pub struct FlatCategoryCount {
    pub category_id: String,
    pub count: usize,
}

impl Ranked for FlatCategoryCount {
    /// The larger count first; equal counts by category.
    open spec fn le(a: Self, b: Self) -> bool {
        a.count > b.count || (a.count == b.count && !precedes(b.category_id@, a.category_id@))
    }

    proof fn le_total(a: Self, b: Self) {
        if precedes(b.category_id@, a.category_id@) {
            lemma_precedes_asymmetric(b.category_id@, a.category_id@);
        }
    }

    proof fn le_transitive(a: Self, b: Self, c: Self) {
        lemma_not_after(a.category_id@, b.category_id@, c.category_id@);
    }

    fn may_precede(&self, other: &Self) -> (r: bool) {
        self.count > other.count || (self.count == other.count && !less(
            other.category_id.as_str(),
            self.category_id.as_str(),
        ))
    }
}

/// Not standing behind is transitive.
proof fn lemma_not_after(a: Seq<char>, b: Seq<char>, c: Seq<char>)
    ensures
        !precedes(b, a) && !precedes(c, b) ==> !precedes(c, a),
{
    if precedes(c, a) && !precedes(b, a) {
        lemma_precedes_total(a, b);
        if precedes(a, b) {
            lemma_precedes_transitive(c, a, b);
        }
    }
}

/// The flat categories of the items.
pub open spec fn flat_ids(items: Seq<PulseItem>) -> Seq<Seq<char>>
    decreases items.len(),
{
    if items.len() == 0 {
        Seq::empty()
    } else {
        match items.last().category_id {
            Some(c) if flat(c@) => flat_ids(items.drop_last()).push(c@),
            _ => flat_ids(items.drop_last()),
        }
    }
}

/// Whether the list counts each flat category, once, the most frequent first.
pub open spec fn counts_flat(list: Seq<FlatCategoryCount>, ids: Seq<Seq<char>>) -> bool {
    &&& in_order(list)
    &&& forall|i: int|
        0 <= i < list.len() ==> (#[trigger] list[i]).count == positions(
            ids,
            list[i].category_id@,
        ).len() && list[i].count > 0
    &&& forall|i: int, j: int|
        0 <= i < j < list.len() ==> (#[trigger] list[i]).category_id@ != (
        #[trigger] list[j]).category_id@
    &&& forall|p: int|
        0 <= p < ids.len() ==> exists|i: int|
            0 <= i < list.len() && (#[trigger] list[i]).category_id@ == #[trigger] ids[p]
}

fn list_flat(items: &Vec<PulseItem>) -> (r: Vec<String>)
    ensures
        texts(r@) == flat_ids(items@),
{
    let mut out: Vec<String> = Vec::new();
    let mut i: usize = 0;
    assert(items@.take(0) =~= Seq::<PulseItem>::empty());
    assert(texts(out@) =~= Seq::<Seq<char>>::empty());
    while i < items.len()
        invariant
            i <= items.len(),
            texts(out@) == flat_ids(items@.take(i as int)),
        decreases items.len() - i,
    {
        let ghost before = texts(out@);
        assert(items@.take(i + 1).drop_last() =~= items@.take(i as int));
        match &items[i].category_id {
            Some(c) => {
                if is_flat_category(c.as_str()) {
                    out.push(c.clone());
                    assert(texts(out@) =~= before.push(c@));
                }
            },
            None => {},
        }
        i = i + 1;
    }
    assert(items@.take(i as int) =~= items@);
    out
}

fn count_flat(ids: &Vec<String>) -> (r: Vec<FlatCategoryCount>)
    ensures
        counts_flat(r@, texts(ids@)),
{
    let ghost all = texts(ids@);
    let groups = group_by_key(ids);
    let mut list: Vec<FlatCategoryCount> = Vec::new();
    let mut i: usize = 0;
    while i < groups.len()
        invariant
            i <= groups.len(),
            groups_of(groups@, all),
            list@.len() == i,
            forall|j: int|
                0 <= j < i ==> (#[trigger] list@[j]).category_id@ == groups@[j].key@
                    && list@[j].count == positions(all, groups@[j].key@).len() && list@[j].count > 0,
        decreases groups.len() - i,
    {
        assert(as_ints(groups@[i as int].members@).len() == groups@[i as int].members@.len());
        list.push(
            FlatCategoryCount {
                category_id: groups[i].key.clone(),
                count: groups[i].members.len(),
            },
        );
        i = i + 1;
    }
    let ghost a = list@;
    let r = sort(list);
    proof {
        let b = r@;
        assert forall|x: int, y: int| 0 <= x < y < a.len() implies (#[trigger] a[x]).category_id@
            != (#[trigger] a[y]).category_id@ by {
            assert(precedes(groups@[x].key@, groups@[y].key@));
            lemma_precedes_irreflexive(groups@[x].key@);
        }
        assert(a.no_duplicates()) by {
            assert forall|x: int, y: int|
                0 <= x < a.len() && 0 <= y < a.len() && x != y implies a[x] != a[y] by {
                if x < y {
                    assert(a[x].category_id@ != a[y].category_id@);
                } else {
                    assert(a[y].category_id@ != a[x].category_id@);
                }
            }
        }
        lemma_same_elements(a, b);
        assert forall|k: int| 0 <= k < b.len() implies (#[trigger] b[k]).count == positions(
            all,
            b[k].category_id@,
        ).len() && b[k].count > 0 by {
            assert(b.contains(b[k]));
            let x = choose|x: int| 0 <= x < a.len() && a[x] == b[k];
            assert(a[x].count > 0);
        }
        assert forall|x: int, y: int| 0 <= x < y < b.len() implies (#[trigger] b[x]).category_id@
            != (#[trigger] b[y]).category_id@ by {
            assert(b.contains(b[x]) && b.contains(b[y]));
            let u = choose|u: int| 0 <= u < a.len() && a[u] == b[x];
            let v = choose|v: int| 0 <= v < a.len() && a[v] == b[y];
            assert(b[x] != b[y]);
            if u < v {
                assert(a[u].category_id@ != a[v].category_id@);
            } else {
                assert(a[v].category_id@ != a[u].category_id@);
            }
        }
        assert forall|p: int| 0 <= p < all.len() implies exists|k: int|
            0 <= k < b.len() && (#[trigger] b[k]).category_id@ == #[trigger] all[p] by {
            let x = choose|x: int| 0 <= x < groups@.len() && (#[trigger] groups@[x]).key@ == all[p];
            assert(a[x].category_id@ == all[p]);
            assert(a.contains(a[x]));
            assert(b.contains(a[x]));
            let k = choose|k: int| 0 <= k < b.len() && b[k] == a[x];
            assert(b[k].category_id@ == all[p]);
        }
    }
    r
}

// ---------------------------------------------------------------------------
// Overlaps between the older ledger and the bank feed

/// A row of the older ledger, a row of the feed that may be the same, and what the
/// pair is ordered by.
pub struct Overlap {
    pub legacy: usize,
    pub pluggy: usize,
    pub day: Date,
    pub account: Option<String>,
    pub amount: Amount,
}

/// Whether the first account may stand before the second; none stands first.
pub open spec fn account_le(a: Option<String>, b: Option<String>) -> bool {
    match (a, b) {
        (None, _) => true,
        (Some(_), None) => false,
        (Some(x), Some(y)) => !precedes(y@, x@),
    }
}

pub open spec fn size_text(a: Amount) -> Seq<char> {
    plain_text(magnitude(a))
}

impl Ranked for Overlap {
    /// The latest day first, then by account, then by amount, all as texts.
    open spec fn le(a: Self, b: Self) -> bool {
        let (x, y) = (iso_text(a.day), iso_text(b.day));
        precedes(y, x) || (x == y && (!account_le(b.account, a.account) || (account_le(
            a.account,
            b.account,
        ) && !precedes(size_text(b.amount), size_text(a.amount)))))
    }

    proof fn le_total(a: Self, b: Self) {
        lemma_precedes_total(iso_text(a.day), iso_text(b.day));
        lemma_account_total(a.account, b.account);
        if precedes(size_text(b.amount), size_text(a.amount)) {
            lemma_precedes_asymmetric(size_text(b.amount), size_text(a.amount));
        }
    }

    proof fn le_transitive(a: Self, b: Self, c: Self) {
        let (x, y, z) = (iso_text(a.day), iso_text(b.day), iso_text(c.day));
        if precedes(y, x) && precedes(z, y) {
            lemma_precedes_transitive(z, y, x);
        }
        lemma_account_transitive(a.account, b.account, c.account);
        lemma_account_transitive(b.account, c.account, a.account);
        lemma_account_transitive(c.account, a.account, b.account);
        lemma_account_total(a.account, b.account);
        lemma_account_total(b.account, c.account);
        lemma_account_total(a.account, c.account);
        lemma_not_after(size_text(a.amount), size_text(b.amount), size_text(c.amount));
    }

    fn may_precede(&self, other: &Self) -> (r: bool) {
        let x = iso(&self.day);
        let y = iso(&other.day);
        if less(y.as_str(), x.as_str()) {
            return true;
        }
        if !same(x.as_str(), y.as_str()) {
            return false;
        }
        if !account_first(&other.account, &self.account) {
            return true;
        }
        account_first(&self.account, &other.account) && !less(
            decimal_text(other.amount.abs()).as_str(),
            decimal_text(self.amount.abs()).as_str(),
        )
    }
}

fn account_first(a: &Option<String>, b: &Option<String>) -> (r: bool)
    ensures
        r == account_le(*a, *b),
{
    match (a, b) {
        (None, _) => true,
        (Some(_), None) => false,
        (Some(x), Some(y)) => !less(y.as_str(), x.as_str()),
    }
}

proof fn lemma_account_total(a: Option<String>, b: Option<String>)
    ensures
        account_le(a, b) || account_le(b, a),
{
    if a is Some && b is Some {
        if precedes(b->0@, a->0@) {
            lemma_precedes_asymmetric(b->0@, a->0@);
        }
    }
}

proof fn lemma_account_transitive(a: Option<String>, b: Option<String>, c: Option<String>)
    ensures
        account_le(a, b) && account_le(b, c) ==> account_le(a, c),
{
    if a is Some && b is Some && c is Some {
        lemma_not_after(a->0@, b->0@, c->0@);
    }
}

pub open spec fn days_apart(a: Date, b: Date) -> int {
    let n = a.number() - b.number();
    if n < 0 {
        -n
    } else {
        n
    }
}

/// Whether the row of the feed may be the row of the older ledger: both expenses of
/// the same account and size, at most a week apart, with related descriptions.
pub open spec fn overlaps(legacy: PulseItem, pluggy: PulseItem) -> bool {
    &&& pluggy.source@ == "pluggy"@
    &&& pluggy.amount.sign()
    &&& opt_text(legacy.account_id) == opt_text(pluggy.account_id)
    &&& size_text(legacy.amount) == size_text(pluggy.amount)
    &&& days_apart(legacy.transaction_date, pluggy.transaction_date) <= 7
    &&& related(legacy.description@, pluggy.description@)
}

/// The first row, from `from` on, that overlaps with the row.
pub open spec fn first_overlap(items: Seq<PulseItem>, legacy: PulseItem, from: int) -> Option<int>
    decreases items.len() - from,
{
    if from < 0 || from >= items.len() {
        None
    } else if overlaps(legacy, items[from]) {
        Some(from)
    } else {
        first_overlap(items, legacy, from + 1)
    }
}

/// The overlaps of the first `n` rows.
pub open spec fn overlaps_of(items: Seq<PulseItem>, n: int) -> Seq<Overlap>
    decreases n,
{
    if n <= 0 {
        Seq::empty()
    } else {
        let row = items[n - 1];
        let rest = overlaps_of(items, n - 1);
        match first_overlap(items, row, 0) {
            Some(j) if row.source@ == "legacy"@ && row.amount.sign() => rest.push(
                Overlap {
                    legacy: (n - 1) as usize,
                    pluggy: j as usize,
                    day: row.transaction_date,
                    account: row.account_id,
                    amount: row.amount,
                },
            ),
            _ => rest,
        }
    }
}

fn does_overlap(legacy: &PulseItem, pluggy: &PulseItem) -> (r: bool)
    ensures
        r == overlaps(*legacy, *pluggy),
{
    let apart = legacy.transaction_date.days_since(&pluggy.transaction_date);
    same(pluggy.source.as_str(), "pluggy") && pluggy.amount.is_sign_negative() && same_option(
        &legacy.account_id,
        &pluggy.account_id,
    ) && same(
        decimal_text(legacy.amount.abs()).as_str(),
        decimal_text(pluggy.amount.abs()).as_str(),
    ) && -7 <= apart && apart <= 7 && descriptions_look_related(
        legacy.description.as_str(),
        pluggy.description.as_str(),
    )
}

fn find_overlap(items: &Vec<PulseItem>, legacy: &PulseItem) -> (r: Option<usize>)
    ensures
        match r {
            Some(j) => first_overlap(items@, *legacy, 0) == Some(j as int) && j < items@.len(),
            None => first_overlap(items@, *legacy, 0) is None,
        },
{
    let mut i: usize = 0;
    while i < items.len()
        invariant
            i <= items.len(),
            first_overlap(items@, *legacy, 0) == first_overlap(items@, *legacy, i as int),
        decreases items.len() - i,
    {
        if does_overlap(legacy, &items[i]) {
            return Some(i);
        }
        i = i + 1;
    }
    None
}

fn find_overlaps(items: &Vec<PulseItem>) -> (r: Vec<Overlap>)
    ensures
        r@ == sorted(overlaps_of(items@, items@.len() as int)),
        forall|k: int|
            0 <= k < r@.len() ==> (#[trigger] r@[k]).legacy < items@.len() && r@[k].pluggy
                < items@.len(),
{
    let mut out: Vec<Overlap> = Vec::new();
    let mut i: usize = 0;
    while i < items.len()
        invariant
            i <= items.len(),
            out@ == overlaps_of(items@, i as int),
            forall|k: int|
                0 <= k < out@.len() ==> (#[trigger] out@[k]).legacy < items@.len()
                    && out@[k].pluggy < items@.len(),
        decreases items.len() - i,
    {
        let row = &items[i];
        let found = find_overlap(items, row);
        match found {
            Some(j) => {
                if same(row.source.as_str(), "legacy") && row.amount.is_sign_negative() {
                    out.push(
                        Overlap {
                            legacy: i,
                            pluggy: j,
                            day: row.transaction_date,
                            account: opt_clone(&row.account_id),
                            amount: row.amount,
                        },
                    );
                }
            },
            None => {},
        }
        i = i + 1;
    }
    let ghost list = out@;
    let r = sort(out);
    proof {
        lemma_same_elements(list, r@);
        assert forall|k: int| 0 <= k < r@.len() implies (#[trigger] r@[k]).legacy < items@.len()
            && r@[k].pluggy < items@.len() by {
            assert(r@.contains(r@[k]));
            let x = choose|x: int| 0 <= x < list.len() && list[x] == r@[k];
            assert(list[x].legacy < items@.len());
        }
    }
    r
}

/// A pair of rows that may be the same, as reports tell of it.
pub struct OverlapCandidate {
    pub account_id: Option<String>,
    pub amount: String,
    pub legacy_transaction_id: String,
    pub legacy_date: String,
    pub legacy_description: String,
    pub pluggy_transaction_id: String,
    pub pluggy_date: String,
    pub pluggy_description: String,
}

pub open spec fn tells_overlap(
    c: OverlapCandidate,
    legacy: PulseItem,
    pluggy: PulseItem,
) -> bool {
    &&& c.account_id == legacy.account_id
    &&& c.amount@ == size_text(legacy.amount)
    &&& c.legacy_transaction_id@ == legacy.transaction_id@
    &&& c.legacy_date@ == iso_text(legacy.transaction_date)
    &&& c.legacy_description@ == legacy.description@
    &&& c.pluggy_transaction_id@ == pluggy.transaction_id@
    &&& c.pluggy_date@ == iso_text(pluggy.transaction_date)
    &&& c.pluggy_description@ == pluggy.description@
}

// ---------------------------------------------------------------------------
// The report

/// How many overlaps a report lists.
pub const OVERLAP_LIMIT: usize = 10;

/// What the transactions of a window tell.
pub struct DataHealth {
    pub pluggy_lag_days: Option<i64>,
    pub window_rows: usize,
    pub window_pluggy_rows: usize,
    pub window_legacy_rows: usize,
    pub window_other_rows: usize,
    pub categorized_rows: usize,
    pub flat_category_rows: usize,
    pub overlap_candidates_count: usize,
    pub overlap_candidates: Vec<OverlapCandidate>,
    pub flat_categories: Vec<FlatCategoryCount>,
}

/// How many items come from the source.
pub open spec fn from_source(items: Seq<PulseItem>, source: Seq<char>) -> nat
    decreases items.len(),
{
    if items.len() == 0 {
        0
    } else {
        from_source(items.drop_last(), source) + (if items.last().source@ == source {
            1nat
        } else {
            0nat
        })
    }
}

/// How many items have a category.
pub open spec fn with_category(items: Seq<PulseItem>) -> nat
    decreases items.len(),
{
    if items.len() == 0 {
        0
    } else {
        with_category(items.drop_last()) + (if items.last().category_id is Some {
            1nat
        } else {
            0nat
        })
    }
}

proof fn lemma_sources(items: Seq<PulseItem>)
    ensures
        from_source(items, "pluggy"@) + from_source(items, "legacy"@) <= items.len(),
        with_category(items) <= items.len(),
    decreases items.len(),
{
    reveal_strlit("pluggy");
    reveal_strlit("legacy");
    assert("pluggy"@[0] != "legacy"@[0]);
    if items.len() > 0 {
        lemma_sources(items.drop_last());
    }
}

fn count_source(items: &Vec<PulseItem>, source: &str) -> (r: usize)
    ensures
        r == from_source(items@, source@),
        r <= items@.len(),
{
    let mut n: usize = 0;
    let mut i: usize = 0;
    assert(items@.take(0) =~= Seq::<PulseItem>::empty());
    while i < items.len()
        invariant
            i <= items.len(),
            n <= i,
            n == from_source(items@.take(i as int), source@),
        decreases items.len() - i,
    {
        assert(items@.take(i + 1).drop_last() =~= items@.take(i as int));
        if same(items[i].source.as_str(), source) {
            n = n + 1;
        }
        i = i + 1;
    }
    assert(items@.take(i as int) =~= items@);
    n
}

fn count_categorized(items: &Vec<PulseItem>) -> (r: usize)
    ensures
        r == with_category(items@),
{
    let mut n: usize = 0;
    let mut i: usize = 0;
    assert(items@.take(0) =~= Seq::<PulseItem>::empty());
    while i < items.len()
        invariant
            i <= items.len(),
            n <= i,
            n == with_category(items@.take(i as int)),
        decreases items.len() - i,
    {
        assert(items@.take(i + 1).drop_last() =~= items@.take(i as int));
        if items[i].category_id.is_some() {
            n = n + 1;
        }
        i = i + 1;
    }
    assert(items@.take(i as int) =~= items@);
    n
}

/// What the transactions of a window tell, on a day, when the feed last brought one
/// on another.
pub fn data_health(items: &Vec<PulseItem>, today: &Date, latest: Option<Date>) -> (r: DataHealth)
    ensures
        r.pluggy_lag_days == (match latest {
            Some(d) => Some((today.number() - d.number()) as i64),
            None => None,
        }),
        r.window_rows == items@.len(),
        r.window_pluggy_rows == from_source(items@, "pluggy"@),
        r.window_legacy_rows == from_source(items@, "legacy"@),
        r.window_other_rows == items@.len() - from_source(items@, "pluggy"@) - from_source(
            items@,
            "legacy"@,
        ),
        r.categorized_rows == with_category(items@),
        r.flat_category_rows == flat_ids(items@).len(),
        counts_flat(r.flat_categories@, flat_ids(items@)),
        ({
            let all = sorted(overlaps_of(items@, items@.len() as int));
            &&& r.overlap_candidates_count == all.len()
            &&& r.overlap_candidates@.len() == (if all.len() <= OVERLAP_LIMIT {
                all.len()
            } else {
                OVERLAP_LIMIT as nat
            })
            &&& forall|i: int|
                0 <= i < r.overlap_candidates@.len() ==> tells_overlap(
                    #[trigger] r.overlap_candidates@[i],
                    items@[all[i].legacy as int],
                    items@[all[i].pluggy as int],
                )
        }),
{
    proof {
        lemma_sources(items@);
    }
    let pluggy = count_source(items, "pluggy");
    let legacy = count_source(items, "legacy");
    let ids = list_flat(items);
    assert(texts(ids@).len() == ids@.len());
    let all = find_overlaps(items);
    let count: usize = if all.len() <= OVERLAP_LIMIT {
        all.len()
    } else {
        OVERLAP_LIMIT
    };
    let mut list: Vec<OverlapCandidate> = Vec::new();
    let mut i: usize = 0;
    while i < count
        invariant
            i <= count <= all.len(),
            list@.len() == i,
            forall|k: int|
                0 <= k < all@.len() ==> (#[trigger] all@[k]).legacy < items@.len() && all@[k].pluggy
                    < items@.len(),
            forall|k: int|
                0 <= k < i ==> tells_overlap(
                    #[trigger] list@[k],
                    items@[all@[k].legacy as int],
                    items@[all@[k].pluggy as int],
                ),
        decreases count - i,
    {
        let a = &items[all[i].legacy];
        let b = &items[all[i].pluggy];
        list.push(
            OverlapCandidate {
                account_id: opt_clone(&a.account_id),
                amount: decimal_text(a.amount.abs()),
                legacy_transaction_id: a.transaction_id.clone(),
                legacy_date: iso(&a.transaction_date),
                legacy_description: a.description.clone(),
                pluggy_transaction_id: b.transaction_id.clone(),
                pluggy_date: iso(&b.transaction_date),
                pluggy_description: b.description.clone(),
            },
        );
        i = i + 1;
    }
    let lag = match latest {
        Some(d) => Some(today.days_since(&d)),
        None => None,
    };
    DataHealth {
        pluggy_lag_days: lag,
        window_rows: items.len(),
        window_pluggy_rows: pluggy,
        window_legacy_rows: legacy,
        window_other_rows: items.len() - (pluggy + legacy),
        categorized_rows: count_categorized(items),
        flat_category_rows: ids.len(),
        overlap_candidates_count: all.len(),
        overlap_candidates: list,
        flat_categories: count_flat(&ids),
    }
}

// ---------------------------------------------------------------------------
// Checks

/// A check: 0 where it failed, 1 where it warns, 2 where all is well.
pub struct HealthCheck {
    pub severity: u8,
    pub emoji: String,
    pub description: String,
}

impl View for HealthCheck {
    type V = (u8, Seq<char>, Seq<char>);

    open spec fn view(&self) -> (u8, Seq<char>, Seq<char>) {
        (self.severity, self.emoji@, self.description@)
    }
}

pub open spec fn check_views(s: Seq<HealthCheck>) -> Seq<(u8, Seq<char>, Seq<char>)> {
    s.map_values(|c: HealthCheck| c@)
}

pub open spec fn mark_of(severity: u8) -> Seq<char> {
    if severity == 0 {
        "🔻"@
    } else if severity == 1 {
        "🟡"@
    } else {
        "✅"@
    }
}

/// Whether the feed is up to date.
pub open spec fn lag_check(lag: Option<i64>) -> (u8, Seq<char>) {
    match lag {
        Some(days) => if days > 3 {
            (0, "Pluggy desatualizado · lag "@ + digits(days as nat) + " dias"@)
        } else if days > 1 {
            (1, "Pluggy levemente atrasado · lag "@ + digits(days as nat) + " dias"@)
        } else {
            (2, "Pluggy atualizado"@)
        },
        None => (1, "Sem data Pluggy registrada"@),
    }
}

/// Whether everything has a category.
pub open spec fn uncategorized_check(count: i64) -> (u8, Seq<char>) {
    if count > 0 {
        (
            if count > 10 {
                0
            } else {
                1
            },
            "Sem categoria · "@ + digits(count as nat) + " transações"@,
        )
    } else {
        (2, "Todas as transações categorizadas"@)
    }
}

/// Whether every category has a hierarchy.
pub open spec fn flat_check(count: usize) -> (u8, Seq<char>) {
    if count > 0 {
        (1, "Categorias planas (sem hierarquia) · "@ + digits(count as nat) + " linhas"@)
    } else {
        (2, "Sem categorias planas"@)
    }
}

/// Whether the older ledger and the feed overlap.
pub open spec fn overlap_check(count: usize) -> (u8, Seq<char>) {
    if count > 0 {
        (0, "Sobreposições legacy×pluggy · "@ + digits(count as nat) + " candidatos"@)
    } else {
        (2, "Sem sobreposições detectadas"@)
    }
}

/// Whether enough transactions have context; the percentage is given as text.
pub open spec fn coverage_check(low: bool, percent: Seq<char>) -> (u8, Seq<char>) {
    if low {
        (1, "Cobertura de contexto baixa · "@ + percent + "%"@)
    } else {
        (2, "Cobertura de contexto · "@ + percent + "%"@)
    }
}

pub open spec fn all_checks(
    health: DataHealth,
    uncategorized: i64,
    low: bool,
    percent: Seq<char>,
) -> Seq<(u8, Seq<char>)> {
    seq![
        lag_check(health.pluggy_lag_days),
        uncategorized_check(uncategorized),
        flat_check(health.flat_category_rows),
        overlap_check(health.overlap_candidates_count),
        coverage_check(low, percent),
    ]
}

/// The checks of one severity among the first `n`, in their order.
pub open spec fn of_severity(checks: Seq<(u8, Seq<char>)>, n: int, severity: u8) -> Seq<
    (u8, Seq<char>, Seq<char>),
>
    decreases n,
{
    if n <= 0 {
        Seq::empty()
    } else if checks[n - 1].0 == severity {
        of_severity(checks, n - 1, severity).push((severity, mark_of(severity), checks[n - 1].1))
    } else {
        of_severity(checks, n - 1, severity)
    }
}

/// The checks with failures first, then warnings, then what is well.
pub open spec fn ordered_checks(checks: Seq<(u8, Seq<char>)>) -> Seq<
    (u8, Seq<char>, Seq<char>),
> {
    let n = checks.len() as int;
    of_severity(checks, n, 0) + of_severity(checks, n, 1) + of_severity(checks, n, 2)
}

fn make_checks(
    health: &DataHealth,
    uncategorized: i64,
    low: bool,
    percent: &str,
) -> (r: Vec<(u8, String)>)
    ensures
        r@.len() == 5,
        forall|i: int|
            0 <= i < 5 ==> ((#[trigger] r@[i]).0, r@[i].1@) == all_checks(
                *health,
                uncategorized,
                low,
                percent@,
            )[i],
{
    let lag: (u8, String) = match health.pluggy_lag_days {
        Some(days) => if days > 3 {
            (0, glue3("Pluggy desatualizado · lag ", number(days as u64).as_str(), " dias"))
        } else if days > 1 {
            (1, glue3("Pluggy levemente atrasado · lag ", number(days as u64).as_str(), " dias"))
        } else {
            (2, "Pluggy atualizado".to_string())
        },
        None => (1, "Sem data Pluggy registrada".to_string()),
    };
    let categories: (u8, String) = if uncategorized > 0 {
        (
            if uncategorized > 10 {
                0
            } else {
                1
            },
            glue3("Sem categoria · ", number(uncategorized as u64).as_str(), " transações"),
        )
    } else {
        (2, "Todas as transações categorizadas".to_string())
    };
    let hierarchy: (u8, String) = if health.flat_category_rows > 0 {
        (
            1,
            glue3(
                "Categorias planas (sem hierarquia) · ",
                number(health.flat_category_rows as u64).as_str(),
                " linhas",
            ),
        )
    } else {
        (2, "Sem categorias planas".to_string())
    };
    let overlap: (u8, String) = if health.overlap_candidates_count > 0 {
        (
            0,
            glue3(
                "Sobreposições legacy×pluggy · ",
                number(health.overlap_candidates_count as u64).as_str(),
                " candidatos",
            ),
        )
    } else {
        (2, "Sem sobreposições detectadas".to_string())
    };
    let coverage: (u8, String) = if low {
        (1, glue3("Cobertura de contexto baixa · ", percent, "%"))
    } else {
        (2, glue3("Cobertura de contexto · ", percent, "%"))
    };
    let mut out: Vec<(u8, String)> = Vec::new();
    out.push(lag);
    out.push(categories);
    out.push(hierarchy);
    out.push(overlap);
    out.push(coverage);
    out
}

fn put_severity(out: &mut Vec<HealthCheck>, checks: &Vec<(u8, String)>, severity: u8)
    ensures
        check_views(final(out)@) == check_views(old(out)@) + of_severity(
            checks@.map_values(|c: (u8, String)| (c.0, c.1@)),
            checks@.len() as int,
            severity,
        ),
{
    let ghost start = check_views(out@);
    let ghost plain = checks@.map_values(|c: (u8, String)| (c.0, c.1@));
    let mut i: usize = 0;
    assert(check_views(out@) =~= start + of_severity(plain, 0, severity));
    while i < checks.len()
        invariant
            i <= checks.len(),
            plain == checks@.map_values(|c: (u8, String)| (c.0, c.1@)),
            check_views(out@) == start + of_severity(plain, i as int, severity),
        decreases checks.len() - i,
    {
        if checks[i].0 == severity {
            let ghost before = check_views(out@);
            let emoji = if severity == 0 {
                "🔻"
            } else if severity == 1 {
                "🟡"
            } else {
                "✅"
            };
            let check = HealthCheck {
                severity,
                emoji: emoji.to_string(),
                description: checks[i].1.clone(),
            };
            out.push(check);
            assert(check_views(out@) =~= before.push(check@));
            assert(check_views(out@) =~= start + of_severity(plain, i + 1, severity));
        }
        i = i + 1;
    }
}

/// The checks of the stored data, failures first. Whether the share of transactions
/// with context is low, and that share in percent, are given.
pub fn health_checks(
    health: &DataHealth,
    uncategorized: i64,
    coverage_low: bool,
    coverage_percent: &str,
) -> (r: Vec<HealthCheck>)
    ensures
        check_views(r@) == ordered_checks(
            all_checks(*health, uncategorized, coverage_low, coverage_percent@),
        ),
{
    let checks = make_checks(health, uncategorized, coverage_low, coverage_percent);
    let ghost want = all_checks(*health, uncategorized, coverage_low, coverage_percent@);
    assert(checks@.map_values(|c: (u8, String)| (c.0, c.1@)) =~= want);
    let mut out: Vec<HealthCheck> = Vec::new();
    assert(check_views(out@) =~= Seq::<(u8, Seq<char>, Seq<char>)>::empty());
    put_severity(&mut out, &checks, 0);
    put_severity(&mut out, &checks, 1);
    put_severity(&mut out, &checks, 2);
    assert(check_views(out@) =~= ordered_checks(want));
    out
}

/// How many checks are not well.
pub open spec fn problem_count(checks: Seq<(u8, Seq<char>, Seq<char>)>) -> nat
    decreases checks.len(),
{
    if checks.len() == 0 {
        0
    } else {
        problem_count(checks.drop_last()) + (if checks.last().0 < 2 {
            1nat
        } else {
            0nat
        })
    }
}

/// How many checks are not well.
pub fn count_problems(checks: &Vec<HealthCheck>) -> (r: usize)
    ensures
        r == problem_count(check_views(checks@)),
        r <= checks@.len(),
{
    let ghost all = check_views(checks@);
    let mut n: usize = 0;
    let mut i: usize = 0;
    assert(all.take(0) =~= Seq::<(u8, Seq<char>, Seq<char>)>::empty());
    while i < checks.len()
        invariant
            i <= checks.len(),
            all == check_views(checks@),
            n <= i,
            n == problem_count(all.take(i as int)),
        decreases checks.len() - i,
    {
        assert(all.take(i + 1).drop_last() =~= all.take(i as int));
        assert(all[i as int] == checks@[i as int]@);
        if checks[i].severity < 2 {
            n = n + 1;
        }
        i = i + 1;
    }
    assert(all.take(i as int) =~= all);
    n
}

/// Each of the five checks is reported once.
pub proof fn law_every_check_reported(
    health: DataHealth,
    uncategorized: i64,
    low: bool,
    percent: Seq<char>,
)
    ensures
        ordered_checks(all_checks(health, uncategorized, low, percent)).len() == 5,
{
    let c = all_checks(health, uncategorized, low, percent);
    reveal_with_fuel(of_severity, 6);
    assert(c.len() == 5);
}

} // verus!
