//! The cash flow of a month by family and subcategory: what came, what is forecast, and
//! what the month before had.

use crate::amount::{abs, limit, one, plus, sum_of, Amount};
use crate::cashflow::{size_of, CashflowCategoryGroup, CashflowDetailItem};
use crate::human::{category_family, family_of, truncate_with_ellipsis, truncated};
use crate::month_report::CashflowDetailSections;
use crate::order::{
    as_ints, distinct, find_positions, lemma_positions, lemma_sorted_views, positions, sort,
    sorted_by, sorted_keys, Ranked,
};
use crate::sums::{
    full_weight, grouped_weight, lemma_ascending_weight, lemma_grouped_weight, lemma_weight_removed,
    picked, total_at, total_of_all,
};
use crate::text::{
    glue3, lemma_precedes_asymmetric, lemma_precedes_total, lemma_precedes_transitive, less,
    precedes, push_text, same, split_at_char, split_once, texts,
};
use vstd::prelude::*;

verus! {

// ---------------------------------------------------------------------------
// Keys

pub open spec fn family_key(id: Seq<char>) -> Seq<char> {
    match family_of(id) {
        Some(f) => f,
        None => "sem-categoria"@,
    }
}

/// The family that a category is shown under.
pub fn category_family_key(category_id: &str) -> (r: String)
    ensures
        r@ == family_key(category_id@),
{
    match category_family(category_id) {
        Some(f) => f,
        None => "sem-categoria".to_string(),
    }
}

/// What stands behind the colon; `geral` where the category is a family.
pub open spec fn sub_key(id: Seq<char>) -> Seq<char> {
    match split_at_char(id, ':') {
        Some((_, sub)) => sub,
        None => if id == family_key(id) {
            "geral"@
        } else {
            id
        },
    }
}

/// The subcategory that a category is shown under.
pub fn category_subcategory_key(category_id: &str) -> (r: String)
    ensures
        r@ == sub_key(category_id@),
{
    match split_once(category_id, ':') {
        Some((_, sub)) => sub,
        None => {
            let family = category_family_key(category_id);
            if same(category_id, family.as_str()) {
                "geral".to_string()
            } else {
                category_id.to_string()
            }
        },
    }
}

/// The family and the subcategory of a category as one text. A family has no colon.
pub open spec fn pair_key(id: Seq<char>) -> Seq<char> {
    family_key(id) + ":"@ + sub_key(id)
}

fn make_pair_key(category_id: &str) -> (r: String)
    ensures
        r@ == pair_key(category_id@),
{
    glue3(
        category_family_key(category_id).as_str(),
        ":",
        category_subcategory_key(category_id).as_str(),
    )
}

// ---------------------------------------------------------------------------
// Columns

/// Groups as columns: the key, the amount and the number of transactions of each.
pub struct GroupColumns {
    pub keys: Vec<String>,
    pub amounts: Vec<Amount>,
    pub counts: Vec<u64>,
}

pub open spec fn group_pairs(groups: Seq<CashflowCategoryGroup>) -> Seq<Seq<char>> {
    groups.map_values(|g: CashflowCategoryGroup| pair_key(g.category_id@))
}

pub open spec fn group_amounts(groups: Seq<CashflowCategoryGroup>) -> Seq<Amount> {
    groups.map_values(|g: CashflowCategoryGroup| g.subtotal)
}

pub open spec fn group_counts(groups: Seq<CashflowCategoryGroup>) -> Seq<u64> {
    groups.map_values(|g: CashflowCategoryGroup| g.transactions)
}

impl GroupColumns {
    pub open spec fn of(self, groups: Seq<CashflowCategoryGroup>) -> bool {
        &&& texts(self.keys@) == group_pairs(groups)
        &&& self.keys@.len() == groups.len()
        &&& self.amounts@ == group_amounts(groups)
        &&& self.counts@ == group_counts(groups)
    }
}

fn make_columns(groups: &Vec<CashflowCategoryGroup>) -> (r: GroupColumns)
    ensures
        r.of(groups@),
{
    let mut c = GroupColumns { keys: Vec::new(), amounts: Vec::new(), counts: Vec::new() };
    let mut i: usize = 0;
    assert(texts(c.keys@) =~= group_pairs(groups@).take(0));
    while i < groups.len()
        invariant
            i <= groups.len(),
            texts(c.keys@) == group_pairs(groups@).take(i as int),
            c.keys@.len() == i,
            c.amounts@ == group_amounts(groups@).take(i as int),
            c.counts@ == group_counts(groups@).take(i as int),
        decreases groups.len() - i,
    {
        push_text(&mut c.keys, make_pair_key(groups[i].category_id.as_str()));
        c.amounts.push(groups[i].subtotal);
        c.counts.push(groups[i].transactions);
        i = i + 1;
        assert(texts(c.keys@).len() == c.keys@.len());
        assert(texts(c.keys@) =~= group_pairs(groups@).take(i as int));
        assert(c.amounts@ =~= group_amounts(groups@).take(i as int));
        assert(c.counts@ =~= group_counts(groups@).take(i as int));
    }
    assert(texts(c.keys@) =~= group_pairs(groups@));
    assert(c.amounts@ =~= group_amounts(groups@));
    assert(c.counts@ =~= group_counts(groups@));
    c
}

// ---------------------------------------------------------------------------
// Subcategories

/// A subcategory with what it comes to.
#[verifier::ext_equal]
pub struct SubContent {
    pub family: Seq<char>,
    pub subcategory: Seq<char>,
    pub actual: Amount,
    pub forecast: Amount,
    pub previous: Amount,
    pub total: Amount,
    pub transactions: nat,
    pub names: Seq<Seq<char>>,
}

/// A subcategory with what it comes to.
pub struct CashflowTerminalSubcategory {
    pub family: String,
    pub subcategory: String,
    pub actual: Amount,
    pub forecast: Amount,
    pub previous: Amount,
    /// What came and what is forecast.
    pub total: Amount,
    pub transactions: u64,
    pub forecast_names: Vec<String>,
}

impl View for CashflowTerminalSubcategory {
    type V = SubContent;

    open spec fn view(&self) -> SubContent {
        SubContent {
            family: self.family@,
            subcategory: self.subcategory@,
            actual: self.actual,
            forecast: self.forecast,
            previous: self.previous,
            total: self.total,
            transactions: self.transactions as nat,
            names: texts(self.forecast_names@),
        }
    }
}

pub open spec fn name_order(size_a: int, name_a: Seq<char>, size_b: int, name_b: Seq<char>) -> bool {
    size_a > size_b || (size_a == size_b && !precedes(name_b, name_a))
}

pub proof fn lemma_name_order_total(size_a: int, name_a: Seq<char>, size_b: int, name_b: Seq<char>)
    ensures
        name_order(size_a, name_a, size_b, name_b) || name_order(size_b, name_b, size_a, name_a),
{
    if precedes(name_b, name_a) {
        lemma_precedes_asymmetric(name_b, name_a);
    }
}

pub proof fn lemma_name_order_transitive(
    size_a: int,
    name_a: Seq<char>,
    size_b: int,
    name_b: Seq<char>,
    size_c: int,
    name_c: Seq<char>,
)
    requires
        name_order(size_a, name_a, size_b, name_b),
        name_order(size_b, name_b, size_c, name_c),
    ensures
        name_order(size_a, name_a, size_c, name_c),
{
    if precedes(name_c, name_a) {
        lemma_precedes_total(name_a, name_b);
        if precedes(name_a, name_b) {
            lemma_precedes_transitive(name_c, name_a, name_b);
        }
    }
}

/// The larger first; equal ones by name.
pub open spec fn sub_le() -> spec_fn(SubContent, SubContent) -> bool {
    |a: SubContent, b: SubContent|
        name_order(size_of(a.total), a.subcategory, size_of(b.total), b.subcategory)
}

impl Ranked for CashflowTerminalSubcategory {
    open spec fn le(a: Self, b: Self) -> bool {
        sub_le()(a@, b@)
    }

    proof fn le_total(a: Self, b: Self) {
        lemma_name_order_total(
            size_of(a.total),
            a.subcategory@,
            size_of(b.total),
            b.subcategory@,
        );
    }

    proof fn le_transitive(a: Self, b: Self, c: Self) {
        lemma_name_order_transitive(
            size_of(a.total),
            a.subcategory@,
            size_of(b.total),
            b.subcategory@,
            size_of(c.total),
            c.subcategory@,
        );
    }

    fn may_precede(&self, other: &Self) -> (r: bool) {
        if other.total.abs().is_less(&self.total.abs()) {
            true
        } else if self.total.abs().is_less(&other.total.abs()) {
            false
        } else {
            !less(other.subcategory.as_str(), self.subcategory.as_str())
        }
    }
}

/// How many transactions the groups with a key have, among the first `n`.
pub open spec fn counted(keys: Seq<Seq<char>>, counts: Seq<u64>, key: Seq<char>, n: int) -> nat
    decreases n,
{
    if n <= 0 {
        0
    } else {
        counted(keys, counts, key, n - 1) + (if keys[n - 1] == key {
            counts[n - 1] as nat
        } else {
            0
        })
    }
}

/// How many transactions the first `n` groups have.
pub open spec fn counted_all(counts: Seq<u64>, n: int) -> nat
    decreases n,
{
    if n <= 0 {
        0
    } else {
        counted_all(counts, n - 1) + counts[n - 1] as nat
    }
}

proof fn lemma_counted(keys: Seq<Seq<char>>, counts: Seq<u64>, key: Seq<char>, n: int, m: int)
    requires
        n <= m,
    ensures
        counted(keys, counts, key, n) <= counted_all(counts, n),
        counted_all(counts, n) <= counted_all(counts, m),
    decreases m,
{
    if m > 0 {
        if n == m {
            lemma_counted(keys, counts, key, n - 1, m - 1);
        } else {
            lemma_counted(keys, counts, key, n, m - 1);
            if n > 0 {
                lemma_counted(keys, counts, key, n - 1, n - 1);
            }
        }
    }
}

/// The short names of the lines of a group.
pub open spec fn item_names(items: Seq<CashflowDetailItem>) -> Seq<Seq<char>> {
    items.map_values(|i: CashflowDetailItem| truncated(i.description@, 24))
}

/// The short names of the lines of the groups with a key.
pub open spec fn names_for(groups: Seq<CashflowCategoryGroup>, key: Seq<char>) -> Seq<Seq<char>>
    decreases groups.len(),
{
    if groups.len() == 0 {
        Seq::empty()
    } else if pair_key(groups.last().category_id@) == key {
        names_for(groups.drop_last(), key) + item_names(groups.last().items@)
    } else {
        names_for(groups.drop_last(), key)
    }
}

/// The groups that bring money, or those that take it.
pub open spec fn of_sign(groups: Seq<CashflowCategoryGroup>, income: bool) -> Seq<
    CashflowCategoryGroup,
>
    decreases groups.len(),
{
    if groups.len() == 0 {
        Seq::empty()
    } else if (groups.last().subtotal.scaled() >= 0) == income {
        of_sign(groups.drop_last(), income).push(groups.last())
    } else {
        of_sign(groups.drop_last(), income)
    }
}

/// What the families are made from: what came, what is forecast, and what the month before
/// had.
pub struct Flow {
    pub actual: Seq<CashflowCategoryGroup>,
    pub forecast: Seq<CashflowCategoryGroup>,
    pub previous: Seq<CashflowCategoryGroup>,
}

/// What came in, or what went out.
pub open spec fn actual_groups(details: CashflowDetailSections, income: bool) -> Seq<
    CashflowCategoryGroup,
> {
    if income {
        details.income@
    } else {
        details.expenses@
    }
}

pub open spec fn flow_of(
    details: CashflowDetailSections,
    previous: Option<CashflowDetailSections>,
    income: bool,
) -> Flow {
    Flow {
        actual: actual_groups(details, income),
        forecast: of_sign(details.forecast@, income),
        previous: match previous {
            Some(p) => actual_groups(p, income),
            None => Seq::empty(),
        },
    }
}

/// The sum of the groups with a key.
pub open spec fn sum_for(groups: Seq<CashflowCategoryGroup>, key: Seq<char>) -> Amount {
    sum_of(picked(group_amounts(groups), positions(group_pairs(groups), key)))
}

pub open spec fn key_parts(key: Seq<char>) -> (Seq<char>, Seq<char>) {
    match split_at_char(key, ':') {
        Some((family, sub)) => (family, sub),
        None => (key, Seq::empty()),
    }
}

/// A subcategory with what it comes to.
pub open spec fn sub_content(flow: Flow, key: Seq<char>) -> SubContent {
    SubContent {
        family: key_parts(key).0,
        subcategory: key_parts(key).1,
        actual: sum_for(flow.actual, key),
        forecast: sum_for(flow.forecast, key),
        previous: sum_for(flow.previous, key),
        total: plus(sum_for(flow.actual, key), sum_for(flow.forecast, key)),
        transactions: counted(
            group_pairs(flow.actual),
            group_counts(flow.actual),
            key,
            flow.actual.len() as int,
        ),
        names: sorted_keys(names_for(flow.forecast, key)),
    }
}

/// All the keys, in order.
pub open spec fn flow_keys(flow: Flow) -> Seq<Seq<char>> {
    sorted_keys(group_pairs(flow.actual) + group_pairs(flow.forecast) + group_pairs(flow.previous))
}

/// Whether nothing came, is forecast, or was there the month before.
pub open spec fn is_nothing(s: SubContent) -> bool {
    s.actual.scaled() == 0 && s.forecast.scaled() == 0 && s.previous.scaled() == 0
}

/// The subcategories of some keys, without those that have nothing.
pub open spec fn subs_for(flow: Flow, keys: Seq<Seq<char>>) -> Seq<SubContent>
    decreases keys.len(),
{
    if keys.len() == 0 {
        Seq::empty()
    } else if is_nothing(sub_content(flow, keys.last())) {
        subs_for(flow, keys.drop_last())
    } else {
        subs_for(flow, keys.drop_last()).push(sub_content(flow, keys.last()))
    }
}

/// The subcategories that have something.
pub open spec fn flow_subs(flow: Flow) -> Seq<SubContent> {
    subs_for(flow, flow_keys(flow))
}

/// The subcategories of a family.
pub open spec fn of_family(subs: Seq<SubContent>, family: Seq<char>) -> Seq<SubContent>
    decreases subs.len(),
{
    if subs.len() == 0 {
        Seq::empty()
    } else if subs.last().family == family {
        of_family(subs.drop_last(), family).push(subs.last())
    } else {
        of_family(subs.drop_last(), family)
    }
}

pub open spec fn sub_views(subs: Seq<CashflowTerminalSubcategory>) -> Seq<SubContent> {
    subs.map_values(|s: CashflowTerminalSubcategory| s@)
}

pub open spec fn sub_totals(subs: Seq<SubContent>) -> Seq<Amount> {
    subs.map_values(|s: SubContent| s.total)
}

pub open spec fn sub_forecasts(subs: Seq<SubContent>) -> Seq<Amount> {
    subs.map_values(|s: SubContent| s.forecast)
}

pub open spec fn sub_previous(subs: Seq<SubContent>) -> Seq<Amount> {
    subs.map_values(|s: SubContent| s.previous)
}

/// A family with its subcategories.
#[verifier::ext_equal]
pub struct FamilyContent {
    pub family: Seq<char>,
    pub total: Amount,
    pub forecast: Amount,
    pub previous: Amount,
    pub subcategories: Seq<SubContent>,
}

/// A family with its subcategories.
pub struct CashflowTerminalFamily {
    pub family: String,
    pub total: Amount,
    pub forecast: Amount,
    pub previous: Amount,
    pub subcategories: Vec<CashflowTerminalSubcategory>,
}

impl View for CashflowTerminalFamily {
    type V = FamilyContent;

    open spec fn view(&self) -> FamilyContent {
        FamilyContent {
            family: self.family@,
            total: self.total,
            forecast: self.forecast,
            previous: self.previous,
            subcategories: sub_views(self.subcategories@),
        }
    }
}

pub open spec fn family_views(families: Seq<CashflowTerminalFamily>) -> Seq<FamilyContent> {
    families.map_values(|f: CashflowTerminalFamily| f@)
}

/// The larger first; equal ones by name.
pub open spec fn family_le() -> spec_fn(FamilyContent, FamilyContent) -> bool {
    |a: FamilyContent, b: FamilyContent|
        name_order(size_of(a.total), a.family, size_of(b.total), b.family)
}

impl Ranked for CashflowTerminalFamily {
    open spec fn le(a: Self, b: Self) -> bool {
        family_le()(a@, b@)
    }

    proof fn le_total(a: Self, b: Self) {
        lemma_name_order_total(size_of(a.total), a.family@, size_of(b.total), b.family@);
    }

    proof fn le_transitive(a: Self, b: Self, c: Self) {
        lemma_name_order_transitive(
            size_of(a.total),
            a.family@,
            size_of(b.total),
            b.family@,
            size_of(c.total),
            c.family@,
        );
    }

    fn may_precede(&self, other: &Self) -> (r: bool) {
        if other.total.abs().is_less(&self.total.abs()) {
            true
        } else if self.total.abs().is_less(&other.total.abs()) {
            false
        } else {
            !less(other.family.as_str(), self.family.as_str())
        }
    }
}

/// A family made from the subcategories of a month, the largest first.
pub open spec fn family_content(subs: Seq<SubContent>, family: Seq<char>) -> FamilyContent {
    let own = sorted_by(of_family(subs, family), sub_le());
    FamilyContent {
        family,
        total: sum_of(sub_totals(own)),
        forecast: sum_of(sub_forecasts(own)),
        previous: sum_of(sub_previous(own)),
        subcategories: own,
    }
}

pub open spec fn sub_families(subs: Seq<SubContent>) -> Seq<Seq<char>> {
    subs.map_values(|s: SubContent| s.family)
}

/// The families of a month, the largest first.
pub open spec fn flow_families(flow: Flow) -> Seq<FamilyContent> {
    let subs = flow_subs(flow);
    sorted_by(
        sorted_keys(sub_families(subs)).map_values(|f: Seq<char>| family_content(subs, f)),
        family_le(),
    )
}

/// Whether no sum leaves the range of amounts.
pub open spec fn flow_fits(flow: Flow) -> bool {
    let n = flow.actual.len() + flow.forecast.len() + flow.previous.len();
    &&& full_weight(group_amounts(flow.actual)) + full_weight(group_amounts(flow.forecast)) + 2 * (n
        * one()) <= limit()
    &&& full_weight(group_amounts(flow.previous)) + n * one() <= limit()
    &&& counted_all(group_counts(flow.actual), flow.actual.len() as int) <= u64::MAX
}

// ---------------------------------------------------------------------------
// Making them

fn make_columns_of_sign(groups: &Vec<CashflowCategoryGroup>, income: bool) -> (r: GroupColumns)
    ensures
        r.of(of_sign(groups@, income)),
{
    let mut c = GroupColumns { keys: Vec::new(), amounts: Vec::new(), counts: Vec::new() };
    let mut i: usize = 0;
    proof {
        assert(groups@.take(0) =~= Seq::<CashflowCategoryGroup>::empty());
        let none = of_sign(groups@.take(0), income);
        assert(texts(c.keys@) =~= group_pairs(none));
        assert(c.amounts@ =~= group_amounts(none));
        assert(c.counts@ =~= group_counts(none));
    }
    while i < groups.len()
        invariant
            i <= groups.len(),
            c.of(of_sign(groups@.take(i as int), income)),
        decreases groups.len() - i,
    {
        let ghost before = of_sign(groups@.take(i as int), income);
        assert(groups@.take(i + 1).drop_last() =~= groups@.take(i as int));
        let g = &groups[i];
        if !g.subtotal.is_below_zero() == income {
            push_text(&mut c.keys, make_pair_key(g.category_id.as_str()));
            c.amounts.push(g.subtotal);
            c.counts.push(g.transactions);
            proof {
                let now = before.push(*g);
                assert(texts(c.keys@).len() == c.keys@.len());
                assert(texts(c.keys@) =~= group_pairs(now));
                assert(c.amounts@ =~= group_amounts(now));
                assert(c.counts@ =~= group_counts(now));
            }
        }
        i = i + 1;
    }
    assert(groups@.take(i as int) =~= groups@);
    c
}

fn make_names(groups: &Vec<CashflowCategoryGroup>, income: bool, key: &str) -> (r: Vec<String>)
    ensures
        texts(r@) == sorted_keys(names_for(of_sign(groups@, income), key@)),
{
    let mut names: Vec<String> = Vec::new();
    let mut i: usize = 0;
    assert(groups@.take(0) =~= Seq::<CashflowCategoryGroup>::empty());
    assert(texts(names@) =~= Seq::<Seq<char>>::empty());
    while i < groups.len()
        invariant
            i <= groups.len(),
            texts(names@) == names_for(of_sign(groups@.take(i as int), income), key@),
        decreases groups.len() - i,
    {
        assert(groups@.take(i + 1).drop_last() =~= groups@.take(i as int));
        let ghost before = of_sign(groups@.take(i as int), income);
        let g = &groups[i];
        let kept = !g.subtotal.is_below_zero() == income;
        assert(before.push(*g).drop_last() =~= before);
        if kept && same(make_pair_key(g.category_id.as_str()).as_str(), key) {
            let ghost start = texts(names@);
            let ghost want = item_names(g.items@);
            let mut k: usize = 0;
            assert(start + want.take(0) =~= start);
            while k < g.items.len()
                invariant
                    k <= g.items.len(),
                    want == item_names(g.items@),
                    texts(names@) == start + want.take(k as int),
                decreases g.items.len() - k,
            {
                push_text(&mut names, truncate_with_ellipsis(g.items[k].description.as_str(), 24));
                k = k + 1;
                assert(texts(names@) =~= start + want.take(k as int));
            }
            assert(want.take(k as int) =~= want);
        }
        i = i + 1;
    }
    assert(groups@.take(i as int) =~= groups@);
    distinct(&names)
}

/// The size of the groups with a key.
spec fn key_weight(groups: Seq<CashflowCategoryGroup>, key: Seq<char>) -> int {
    full_weight(picked(group_amounts(groups), positions(group_pairs(groups), key)))
}

fn sum_column(c: &GroupColumns, key: &str, groups: Ghost<Seq<CashflowCategoryGroup>>) -> (r: Amount)
    requires
        c.of(groups@),
        full_weight(group_amounts(groups@)) <= limit(),
    ensures
        r == sum_for(groups@, key@),
        abs(r.scaled()) <= key_weight(groups@, key@) <= full_weight(group_amounts(groups@)),
{
    let at = find_positions(&c.keys, key);
    proof {
        lemma_positions(group_pairs(groups@), key@);
        lemma_ascending_weight(group_amounts(groups@), as_ints(at@));
    }
    total_at(&c.amounts, &at)
}

fn count_column(c: &GroupColumns, key: &str, groups: Ghost<Seq<CashflowCategoryGroup>>) -> (r: u64)
    requires
        c.of(groups@),
        counted_all(group_counts(groups@), groups@.len() as int) <= u64::MAX,
    ensures
        r == counted(
            group_pairs(groups@),
            group_counts(groups@),
            key@,
            groups@.len() as int,
        ),
{
    let ghost keys = group_pairs(groups@);
    let ghost counts = group_counts(groups@);
    let mut total: u64 = 0;
    let mut i: usize = 0;
    while i < c.keys.len()
        invariant
            i <= c.keys.len(),
            c.of(groups@),
            keys == group_pairs(groups@),
            counts == group_counts(groups@),
            counted_all(counts, groups@.len() as int) <= u64::MAX,
            total == counted(keys, counts, key@, i as int),
        decreases c.keys.len() - i,
    {
        proof {
            lemma_counted(keys, counts, key@, i + 1, groups@.len() as int);
            assert(texts(c.keys@)[i as int] == c.keys@[i as int]@);
        }
        if same(c.keys[i].as_str(), key) {
            total = total + c.counts[i];
        }
        i = i + 1;
    }
    total
}

/// The columns of a month.
pub struct FlowColumns {
    pub actual: GroupColumns,
    pub forecast: GroupColumns,
    pub previous: GroupColumns,
}

impl FlowColumns {
    pub open spec fn of(self, flow: Flow) -> bool {
        self.actual.of(flow.actual) && self.forecast.of(flow.forecast) && self.previous.of(
            flow.previous,
        )
    }
}

fn make_sub(
    c: &FlowColumns,
    forecast: &Vec<CashflowCategoryGroup>,
    income: bool,
    key: &str,
    flow: Ghost<Flow>,
) -> (r: CashflowTerminalSubcategory)
    requires
        c.of(flow@),
        flow@.forecast == of_sign(forecast@, income),
        flow_fits(flow@),
    ensures
        r@ == sub_content(flow@, key@),
        abs(r.total.scaled()) <= key_weight(flow@.actual, key@) + key_weight(flow@.forecast, key@)
            + one(),
        abs(r.forecast.scaled()) <= key_weight(flow@.forecast, key@),
        abs(r.previous.scaled()) <= key_weight(flow@.previous, key@),
{
    proof {
        crate::sums::lemma_weight_take(group_amounts(flow@.actual), 0);
        crate::sums::lemma_weight_take(group_amounts(flow@.forecast), 0);
        crate::amount::lemma_one();
        let n = flow@.actual.len() + flow@.forecast.len() + flow@.previous.len();
        assert(n * one() >= 0) by (nonlinear_arith)
            requires
                n >= 0,
                one() >= 0,
        ;
    }
    let actual = sum_column(&c.actual, key, Ghost(flow@.actual));
    let planned = sum_column(&c.forecast, key, Ghost(flow@.forecast));
    let previous = sum_column(&c.previous, key, Ghost(flow@.previous));
    let total = actual.added(&planned);
    let transactions = count_column(&c.actual, key, Ghost(flow@.actual));
    let (family, subcategory) = match split_once(key, ':') {
        Some((f, s)) => (f, s),
        None => (key.to_string(), String::new()),
    };
    let out = CashflowTerminalSubcategory {
        family,
        subcategory,
        actual,
        forecast: planned,
        previous,
        total,
        transactions,
        forecast_names: make_names(forecast, income, key),
    };
    assert(out@ =~= sub_content(flow@, key@));
    out
}

impl CashflowTerminalSubcategory {
    /// Whether nothing came, is forecast, or was there the month before.
    pub fn is_empty(&self) -> (r: bool)
        ensures
            r == is_nothing(self@),
    {
        let none = Amount::none();
        proof {
            broadcast use crate::amount::lemma_made;

            crate::amount::lemma_zero_scaled(none);
        }
        self.actual.is_same(&none) && self.forecast.is_same(&none) && self.previous.is_same(&none)
    }

    /// A copy.
    pub fn copied(&self) -> (r: CashflowTerminalSubcategory)
        ensures
            r@ == self@,
    {
        CashflowTerminalSubcategory {
            family: self.family.clone(),
            subcategory: self.subcategory.clone(),
            actual: self.actual,
            forecast: self.forecast,
            previous: self.previous,
            total: self.total,
            transactions: self.transactions,
            forecast_names: crate::review::copy_texts(&self.forecast_names),
        }
    }
}

/// Whether the subcategories can be summed: their totals, their forecasts, and what they
/// were the month before.
pub open spec fn subs_fit(subs: Seq<SubContent>) -> bool {
    &&& full_weight(sub_totals(subs)) <= limit()
    &&& full_weight(sub_forecasts(subs)) <= limit()
    &&& full_weight(sub_previous(subs)) <= limit()
}

fn join_keys(c: &FlowColumns, flow: Ghost<Flow>) -> (r: Vec<String>)
    requires
        c.of(flow@),
    ensures
        texts(r@) == flow_keys(flow@),
        r@.len() <= flow@.actual.len() + flow@.forecast.len() + flow@.previous.len(),
{
    let mut all = crate::review::copy_texts(&c.actual.keys);
    let mut more = crate::review::copy_texts(&c.forecast.keys);
    let mut rest = crate::review::copy_texts(&c.previous.keys);
    let ghost a = all@;
    let ghost b = more@;
    let ghost d = rest@;
    all.append(&mut more);
    all.append(&mut rest);
    proof {
        assert(texts(all@) =~= texts(a) + texts(b) + texts(d));
        crate::order::lemma_few_keys(texts(all@));
        assert(texts(all@).len() == all@.len());
    }
    let out = distinct(&all);
    assert(texts(out@).len() == out@.len());
    out
}

fn make_subs(
    c: &FlowColumns,
    forecast: &Vec<CashflowCategoryGroup>,
    income: bool,
    flow: Ghost<Flow>,
) -> (r: Vec<CashflowTerminalSubcategory>)
    requires
        c.of(flow@),
        flow@.forecast == of_sign(forecast@, income),
        flow_fits(flow@),
    ensures
        sub_views(r@) == flow_subs(flow@),
        subs_fit(sub_views(r@)),
{
    let ghost (a, f, p) = (
        group_amounts(flow@.actual),
        group_amounts(flow@.forecast),
        group_amounts(flow@.previous),
    );
    let ghost (ka, kf, kp) = (
        group_pairs(flow@.actual),
        group_pairs(flow@.forecast),
        group_pairs(flow@.previous),
    );
    let keys = join_keys(c, flow);
    let ghost list = texts(keys@);
    let mut out: Vec<CashflowTerminalSubcategory> = Vec::new();
    let mut i: usize = 0;
    proof {
        assert(list.take(0) =~= Seq::<Seq<char>>::empty());
        assert(sub_views(out@) =~= Seq::<SubContent>::empty());
        assert(list.len() == keys@.len());
        crate::amount::lemma_one();
    }
    while i < keys.len()
        invariant
            i <= keys.len(),
            c.of(flow@),
            flow@.forecast == of_sign(forecast@, income),
            flow_fits(flow@),
            one() >= 0,
            a == group_amounts(flow@.actual),
            f == group_amounts(flow@.forecast),
            p == group_amounts(flow@.previous),
            ka == group_pairs(flow@.actual),
            kf == group_pairs(flow@.forecast),
            kp == group_pairs(flow@.previous),
            list == texts(keys@),
            list.len() == keys@.len(),
            sub_views(out@) == subs_for(flow@, list.take(i as int)),
            full_weight(sub_totals(sub_views(out@))) <= grouped_weight(a, ka, list.take(i as int))
                + grouped_weight(f, kf, list.take(i as int)) + 2 * (i * one()),
            full_weight(sub_forecasts(sub_views(out@))) <= grouped_weight(
                f,
                kf,
                list.take(i as int),
            ) + i * one(),
            full_weight(sub_previous(sub_views(out@))) <= grouped_weight(p, kp, list.take(i as int))
                + i * one(),
        decreases keys.len() - i,
    {
        assert(list.take(i + 1).drop_last() =~= list.take(i as int));
        assert(list[i as int] == keys@[i as int]@);
        proof {
            assert((i + 1) * one() == i * one() + one()) by (nonlinear_arith);
            lemma_key_weight(flow@.actual, keys@[i as int]@);
            lemma_key_weight(flow@.forecast, keys@[i as int]@);
            lemma_key_weight(flow@.previous, keys@[i as int]@);
        }
        let s = make_sub(c, forecast, income, keys[i].as_str(), flow);
        if !s.is_empty() {
            let ghost before = sub_views(out@);
            out.push(s);
            assert(sub_views(out@) =~= before.push(s@));
            proof {
                lemma_one_more(before, s@);
            }
        }
        i = i + 1;
    }
    assert(list.take(i as int) =~= list);
    proof {
        crate::order::law_sorted_keys(ka + kf + kp);
        crate::order::lemma_ascending_differ(list);
        lemma_grouped_weight(a, ka, list);
        lemma_grouped_weight(f, kf, list);
        lemma_grouped_weight(p, kp, list);
        let n = flow@.actual.len() + flow@.forecast.len() + flow@.previous.len();
        assert(i * one() <= n * one()) by (nonlinear_arith)
            requires
                i <= n,
                one() >= 0,
        ;
        crate::sums::lemma_weight_take(a, 0);
    }
    out
}

proof fn lemma_key_weight(groups: Seq<CashflowCategoryGroup>, key: Seq<char>)
    ensures
        key_weight(groups, key) >= 0,
{
    crate::sums::lemma_weight_take(
        picked(group_amounts(groups), positions(group_pairs(groups), key)),
        0,
    );
}

/// One more subcategory adds its own size, with one to spare.
proof fn lemma_one_more(subs: Seq<SubContent>, s: SubContent)
    ensures
        full_weight(sub_totals(subs.push(s))) == full_weight(sub_totals(subs)) + abs(
            s.total.scaled(),
        ) + one(),
        full_weight(sub_forecasts(subs.push(s))) == full_weight(sub_forecasts(subs)) + abs(
            s.forecast.scaled(),
        ) + one(),
        full_weight(sub_previous(subs.push(s))) == full_weight(sub_previous(subs)) + abs(
            s.previous.scaled(),
        ) + one(),
{
    assert(sub_totals(subs.push(s)).drop_last() =~= sub_totals(subs));
    assert(sub_forecasts(subs.push(s)).drop_last() =~= sub_forecasts(subs));
    assert(sub_previous(subs.push(s)).drop_last() =~= sub_previous(subs));
}

/// The subcategories of a family are no more than all.
proof fn lemma_of_family(subs: Seq<SubContent>, family: Seq<char>)
    ensures
        full_weight(sub_totals(of_family(subs, family))) <= full_weight(sub_totals(subs)),
        full_weight(sub_forecasts(of_family(subs, family))) <= full_weight(sub_forecasts(subs)),
        full_weight(sub_previous(of_family(subs, family))) <= full_weight(sub_previous(subs)),
    decreases subs.len(),
{
    if subs.len() > 0 {
        lemma_of_family(subs.drop_last(), family);
        assert(subs.drop_last().push(subs.last()) =~= subs);
        lemma_one_more(subs.drop_last(), subs.last());
        lemma_one_more(of_family(subs.drop_last(), family), subs.last());
        crate::amount::lemma_one();
    } else {
        assert(of_family(subs, family) =~= subs);
    }
}

/// Subcategories in another order come to the same sizes.
proof fn lemma_subs_permuted(
    a: Seq<CashflowTerminalSubcategory>,
    b: Seq<CashflowTerminalSubcategory>,
)
    requires
        a.to_multiset() == b.to_multiset(),
    ensures
        full_weight(sub_totals(sub_views(a))) == full_weight(sub_totals(sub_views(b))),
        full_weight(sub_forecasts(sub_views(a))) == full_weight(sub_forecasts(sub_views(b))),
        full_weight(sub_previous(sub_views(a))) == full_weight(sub_previous(sub_views(b))),
    decreases a.len(),
{
    broadcast use vstd::seq_lib::group_to_multiset_ensures;

    assert(a.len() == a.to_multiset().len() && b.len() == b.to_multiset().len());
    if a.len() > 0 {
        let x = a.last();
        assert(a[a.len() - 1] == x);
        assert(a.contains(x));
        assert(b.to_multiset().count(x) > 0);
        let j = choose|j: int| 0 <= j < b.len() && b[j] == x;
        let (p, q) = (a.drop_last(), b.remove(j));
        assert(p =~= a.remove(a.len() - 1));
        assert(p.to_multiset() == q.to_multiset());
        lemma_subs_permuted(p, q);
        assert(sub_views(a) =~= sub_views(p).push(x@));
        lemma_one_more(sub_views(p), x@);
        let v = sub_views(b);
        assert(sub_totals(v).remove(j) =~= sub_totals(sub_views(q)));
        assert(sub_forecasts(v).remove(j) =~= sub_forecasts(sub_views(q)));
        assert(sub_previous(v).remove(j) =~= sub_previous(sub_views(q)));
        lemma_weight_removed(sub_totals(v), j);
        lemma_weight_removed(sub_forecasts(v), j);
        lemma_weight_removed(sub_previous(v), j);
    } else {
        assert(sub_views(a) =~= sub_views(b));
    }
}

fn copy_family(subs: &Vec<CashflowTerminalSubcategory>, family: &str) -> (r: Vec<
    CashflowTerminalSubcategory,
>)
    ensures
        sub_views(r@) == of_family(sub_views(subs@), family@),
{
    let ghost all = sub_views(subs@);
    let mut out: Vec<CashflowTerminalSubcategory> = Vec::new();
    let mut i: usize = 0;
    assert(all.take(0) =~= Seq::<SubContent>::empty());
    assert(sub_views(out@) =~= Seq::<SubContent>::empty());
    while i < subs.len()
        invariant
            i <= subs.len(),
            all == sub_views(subs@),
            sub_views(out@) == of_family(all.take(i as int), family@),
        decreases subs.len() - i,
    {
        assert(all.take(i + 1).drop_last() =~= all.take(i as int));
        assert(all[i as int] == subs@[i as int]@);
        if same(subs[i].family.as_str(), family) {
            let ghost before = sub_views(out@);
            let s = subs[i].copied();
            out.push(s);
            assert(sub_views(out@) =~= before.push(s@));
        }
        i = i + 1;
    }
    assert(all.take(i as int) =~= all);
    out
}

fn make_family(subs: &Vec<CashflowTerminalSubcategory>, family: &str) -> (r: CashflowTerminalFamily)
    requires
        subs_fit(sub_views(subs@)),
    ensures
        r@ == family_content(sub_views(subs@), family@),
{
    let own = copy_family(subs, family);
    let ghost before = sub_views(own@);
    let ghost plain = own@;
    let own = sort(own);
    let ghost views = sub_views(own@);
    proof {
        lemma_of_family(sub_views(subs@), family@);
        lemma_sorted_views(plain, |s: CashflowTerminalSubcategory| s@, sub_le());
        assert(sub_views(plain) =~= plain.map_values(|s: CashflowTerminalSubcategory| s@));
        assert(views =~= own@.map_values(|s: CashflowTerminalSubcategory| s@));
        lemma_subs_permuted(plain, own@);
        assert(before == sub_views(plain));
    }
    let mut totals: Vec<Amount> = Vec::new();
    let mut planned: Vec<Amount> = Vec::new();
    let mut earlier: Vec<Amount> = Vec::new();
    let mut i: usize = 0;
    while i < own.len()
        invariant
            i <= own.len(),
            views == sub_views(own@),
            totals@ == sub_totals(views).take(i as int),
            planned@ == sub_forecasts(views).take(i as int),
            earlier@ == sub_previous(views).take(i as int),
        decreases own.len() - i,
    {
        assert(views[i as int] == own@[i as int]@);
        totals.push(own[i].total);
        planned.push(own[i].forecast);
        earlier.push(own[i].previous);
        i = i + 1;
        assert(totals@ =~= sub_totals(views).take(i as int));
        assert(planned@ =~= sub_forecasts(views).take(i as int));
        assert(earlier@ =~= sub_previous(views).take(i as int));
    }
    proof {
        assert(totals@ =~= sub_totals(views));
        assert(planned@ =~= sub_forecasts(views));
        assert(earlier@ =~= sub_previous(views));
    }
    let out = CashflowTerminalFamily {
        family: family.to_string(),
        total: total_of_all(&totals),
        forecast: total_of_all(&planned),
        previous: total_of_all(&earlier),
        subcategories: own,
    };
    assert(out@ =~= family_content(sub_views(subs@), family@));
    out
}

fn list_families(subs: &Vec<CashflowTerminalSubcategory>) -> (r: Vec<String>)
    ensures
        texts(r@) == sorted_keys(sub_families(sub_views(subs@))),
{
    let ghost want = sub_families(sub_views(subs@));
    let mut names: Vec<String> = Vec::new();
    let mut i: usize = 0;
    assert(texts(names@) =~= want.take(0));
    while i < subs.len()
        invariant
            i <= subs.len(),
            want == sub_families(sub_views(subs@)),
            texts(names@) == want.take(i as int),
        decreases subs.len() - i,
    {
        push_text(&mut names, subs[i].family.clone());
        i = i + 1;
        assert(texts(names@) =~= want.take(i as int));
    }
    assert(texts(names@) =~= want);
    distinct(&names)
}

/// The families of a month, the largest first: what came in, or what went out, with the
/// forecast of the same direction and the month before.
pub fn terminal_families_for(
    details: &CashflowDetailSections,
    previous: &Option<CashflowDetailSections>,
    income: bool,
) -> (r: Vec<CashflowTerminalFamily>)
    requires
        flow_fits(flow_of(*details, *previous, income)),
    ensures
        family_views(r@) == flow_families(flow_of(*details, *previous, income)),
{
    let ghost flow = flow_of(*details, *previous, income);
    let actual = if income {
        make_columns(&details.income)
    } else {
        make_columns(&details.expenses)
    };
    let earlier = match previous {
        Some(p) => if income {
            make_columns(&p.income)
        } else {
            make_columns(&p.expenses)
        },
        None => make_columns(&Vec::new()),
    };
    let c = FlowColumns {
        actual,
        forecast: make_columns_of_sign(&details.forecast, income),
        previous: earlier,
    };
    let subs = make_subs(&c, &details.forecast, income, Ghost(flow));
    let names = list_families(&subs);
    let ghost views = sub_views(subs@);
    let ghost list = texts(names@);
    let ghost want = list.map_values(|f: Seq<char>| family_content(views, f));
    let mut out: Vec<CashflowTerminalFamily> = Vec::new();
    let mut k: usize = 0;
    assert(list.len() == names@.len());
    assert(family_views(out@) =~= want.take(0));
    while k < names.len()
        invariant
            k <= names.len(),
            views == sub_views(subs@),
            list == texts(names@),
            list.len() == names@.len(),
            want == list.map_values(|f: Seq<char>| family_content(views, f)),
            subs_fit(views),
            family_views(out@) == want.take(k as int),
        decreases names.len() - k,
    {
        assert(list[k as int] == names@[k as int]@);
        let ghost before = family_views(out@);
        let f = make_family(&subs, names[k].as_str());
        out.push(f);
        assert(family_views(out@) =~= before.push(f@));
        k = k + 1;
        assert(family_views(out@) =~= want.take(k as int));
    }
    assert(family_views(out@) =~= want);
    let ghost plain = out@;
    let sorted_out = sort(out);
    proof {
        lemma_sorted_views(plain, |f: CashflowTerminalFamily| f@, family_le());
        assert(family_views(plain) =~= plain.map_values(|f: CashflowTerminalFamily| f@));
        assert(family_views(sorted_out@) =~= sorted_out@.map_values(
            |f: CashflowTerminalFamily| f@,
        ));
    }
    sorted_out
}

} // verus!
