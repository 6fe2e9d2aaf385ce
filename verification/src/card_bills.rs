//! Card bills in the cash flow: what a bill holds, and which payment settled it.

use crate::amount::{
    abs, exact_sum, from_signed, limit, magnitude, minus, negated, one, plus, sum_of, times, Amount,
};
use crate::cashflow::{
    add_cashflow_group_item, apart, arrives_on_card, by_category, cashflow_category_id,
    cashflow_item_from_transaction, category_key, find_last_account, has_internal_category,
    is_card_side_bill_payment, is_internal, is_on_credit, item_of, item_views, last_account,
    lists_groups, on_credit, payment_at, size_of, sorted_cashflow_groups, tx_amounts, with_item,
    within, CashflowCategoryGroup, CashflowDetailItem, GroupContent,
};
use crate::date::{
    date_of, first_of_month, iso_text, month_ref_for, month_text, shift_month, shifted_month, Date,
};
use crate::metadata::{closing_day_of, parse_closing_day};
use crate::order::{
    as_ints, lemma_few_keys, distinct, in_order, lemma_sorted_views, lemma_where_at, sort, sorted_by, sorted_keys,
    where_at, Ranked,
};
use crate::records::{
    detect_marker, is_subscription, marker_in, opt_text, subscribes, AccountRecord,
    TransactionRecord,
};
use crate::summary::holds;
use crate::sums::{
    ascending, full_weight, lemma_ascending_weight, lemma_member_weight, lemma_where_ascending,
    picked, total_at,
};
use crate::text::{
    lemma_precedes_asymmetric, lemma_precedes_total, lemma_precedes_transitive, less, precedes,
    same, texts, trim, trimmed,
};
use vstd::prelude::*;

verus! {

// ---------------------------------------------------------------------------
// Which bill a purchase belongs to

/// The month of the bill on which a purchase falls: the next one from the closing
/// day on.
pub open spec fn cycle_text(date: Date, closing_day: Option<u32>) -> Option<Seq<char>> {
    match closing_day {
        Some(day) if date.d() >= day => match shifted_month(date, 1) {
            Some(next) => Some(month_text(next)),
            None => None,
        },
        _ => Some(month_text(date)),
    }
}

/// The month of the bill on which a purchase falls.
pub fn card_cycle_ref_for(date: &Date, closing_day: Option<u32>) -> (r: Result<String, String>)
    ensures
        match r {
            Ok(t) => cycle_text(*date, closing_day) == Some(t@),
            Err(e) => cycle_text(*date, closing_day) is None && e@
                == "Falha ao calcular mês deslocado a partir de "@ + iso_text(
                date_of(date.y(), date.m(), 1),
            ),
        },
{
    proof {
        broadcast use crate::date::lemma_date_of;

    }
    date.known();
    let first = first_of_month(date);
    match closing_day {
        Some(day) => if date.day() >= day {
            match shift_month(&first, 1) {
                Ok(next) => Ok(month_ref_for(&next)),
                Err(e) => Err(e),
            }
        } else {
            Ok(month_ref_for(date))
        },
        None => Ok(month_ref_for(date)),
    }
}

/// The closing day of a card: that of the last account with the identifier that has
/// one.
pub open spec fn closing_day_on(accounts: Seq<AccountRecord>, id: Seq<char>) -> Option<u32>
    decreases accounts.len(),
{
    if accounts.len() == 0 {
        None
    } else if accounts.last().account_id@ == id && closing_day_of(
        accounts.last().metadata_json,
    ) is Some {
        closing_day_of(accounts.last().metadata_json)
    } else {
        closing_day_on(accounts.drop_last(), id)
    }
}

fn find_closing_day_on(accounts: &Vec<AccountRecord>, id: &str) -> (r: Option<u32>)
    ensures
        r == closing_day_on(accounts@, id@),
{
    let mut i: usize = accounts.len();
    assert(accounts@.take(i as int) =~= accounts@);
    while i > 0
        invariant
            i <= accounts.len(),
            closing_day_on(accounts@, id@) == closing_day_on(accounts@.take(i as int), id@),
        decreases i,
    {
        assert(accounts@.take(i as int).drop_last() =~= accounts@.take(i - 1));
        assert(accounts@.take(i as int).last() == accounts@[i - 1]);
        if same(accounts[i - 1].account_id.as_str(), id) {
            let day = parse_closing_day(&accounts[i - 1].metadata_json);
            if day.is_some() {
                return day;
            }
        }
        i = i - 1;
    }
    None
}

/// The card on whose bills a transaction counts: not an internal one, and not a
/// payment of a bill.
pub open spec fn bill_account(
    tx: TransactionRecord,
    accounts: Seq<AccountRecord>,
    internal: Seq<Seq<char>>,
) -> Option<Seq<char>> {
    if on_credit(tx, accounts) && !is_internal(tx, internal) && !arrives_on_card(tx) {
        opt_text(tx.account_id)
    } else {
        None
    }
}

/// The card on whose bills a transaction counts.
pub fn cashflow_bill_credit_account<'a>(
    tx: &'a TransactionRecord,
    accounts: &Vec<AccountRecord>,
    internal_categories: &Vec<String>,
) -> (r: Option<&'a String>)
    ensures
        match r {
            Some(id) => bill_account(*tx, accounts@, texts(internal_categories@)) == Some(id@),
            None => bill_account(*tx, accounts@, texts(internal_categories@)) is None,
        },
{
    if is_on_credit(tx, accounts) && !has_internal_category(tx, internal_categories)
        && !is_card_side_bill_payment(tx) {
        match &tx.account_id {
            Some(id) => Some(id),
            None => None,
        }
    } else {
        None
    }
}

/// The bill on which a transaction counts: its card and its month; the month is
/// missing where the calendar ends.
pub open spec fn bill_of_tx(
    tx: TransactionRecord,
    accounts: Seq<AccountRecord>,
    internal: Seq<Seq<char>>,
) -> Option<(Seq<char>, Option<Seq<char>>)> {
    match bill_account(tx, accounts, internal) {
        Some(id) => Some((id, cycle_text(tx.transaction_date, closing_day_on(accounts, id)))),
        None => None,
    }
}

/// Whether the transaction at a position counts on the card's bill of the month.
pub open spec fn on_bill_of(
    rows: Seq<TransactionRecord>,
    accounts: Seq<AccountRecord>,
    internal: Seq<Seq<char>>,
    id: Seq<char>,
    month: Seq<char>,
) -> spec_fn(int) -> bool {
    |i: int| bill_of_tx(rows[i], accounts, internal) == Some((id, Some(month)))
}

/// The positions of the transactions on the card's bill of the month.
pub open spec fn bill_rows(
    rows: Seq<TransactionRecord>,
    accounts: Seq<AccountRecord>,
    internal: Seq<Seq<char>>,
    id: Seq<char>,
    month: Seq<char>,
) -> Seq<int> {
    where_at(rows.len() as int, on_bill_of(rows, accounts, internal, id, month))
}

/// The cards with a transaction on a bill of the month, among the first `n`
/// transactions.
pub open spec fn billed_cards(
    rows: Seq<TransactionRecord>,
    accounts: Seq<AccountRecord>,
    internal: Seq<Seq<char>>,
    month: Seq<char>,
    n: int,
) -> Seq<Seq<char>>
    decreases n,
{
    if n <= 0 {
        Seq::empty()
    } else {
        let before = billed_cards(rows, accounts, internal, month, n - 1);
        match bill_of_tx(rows[n - 1], accounts, internal) {
            Some((id, Some(m))) if m == month => before.push(id),
            _ => before,
        }
    }
}

/// The first transaction, from `from` on, whose bill the calendar does not have.
pub open spec fn first_without_cycle(
    rows: Seq<TransactionRecord>,
    accounts: Seq<AccountRecord>,
    internal: Seq<Seq<char>>,
    from: int,
) -> Option<int>
    decreases rows.len() - from,
{
    if from < 0 || from >= rows.len() {
        None
    } else {
        match bill_of_tx(rows[from], accounts, internal) {
            Some((_, None)) => Some(from),
            _ => first_without_cycle(rows, accounts, internal, from + 1),
        }
    }
}

fn list_billed_cards(
    rows: &Vec<TransactionRecord>,
    accounts: &Vec<AccountRecord>,
    internal_categories: &Vec<String>,
    month: &str,
) -> (r: Result<Vec<String>, String>)
    ensures
        ({
            let internal = texts(internal_categories@);
            match first_without_cycle(rows@, accounts@, internal, 0) {
                Some(i) => r is Err && r->Err_0@
                    == "Falha ao calcular mês deslocado a partir de "@ + iso_text(
                    date_of(rows@[i].transaction_date.y(), rows@[i].transaction_date.m(), 1),
                ),
                None => r is Ok && texts(r->Ok_0@) == billed_cards(
                    rows@,
                    accounts@,
                    internal,
                    month@,
                    rows@.len() as int,
                ),
            }
        }),
{
    let ghost internal = texts(internal_categories@);
    let mut out: Vec<String> = Vec::new();
    let mut i: usize = 0;
    assert(texts(out@) =~= Seq::<Seq<char>>::empty());
    while i < rows.len()
        invariant
            i <= rows.len(),
            internal == texts(internal_categories@),
            first_without_cycle(rows@, accounts@, internal, 0) == first_without_cycle(
                rows@,
                accounts@,
                internal,
                i as int,
            ),
            texts(out@) == billed_cards(rows@, accounts@, internal, month@, i as int),
        decreases rows.len() - i,
    {
        let ghost before = texts(out@);
        match cashflow_bill_credit_account(&rows[i], accounts, internal_categories) {
            Some(id) => {
                let day = find_closing_day_on(accounts, id.as_str());
                match card_cycle_ref_for(&rows[i].transaction_date, day) {
                    Ok(cycle) => {
                        if same(cycle.as_str(), month) {
                            out.push(id.clone());
                            assert(texts(out@) =~= before.push(id@));
                        }
                    },
                    Err(e) => {
                        return Err(e);
                    },
                }
            },
            None => {},
        }
        i = i + 1;
    }
    Ok(out)
}

fn find_bill_rows(
    rows: &Vec<TransactionRecord>,
    accounts: &Vec<AccountRecord>,
    internal_categories: &Vec<String>,
    id: &str,
    month: &str,
) -> (r: Vec<usize>)
    ensures
        as_ints(r@) == bill_rows(rows@, accounts@, texts(internal_categories@), id@, month@),
{
    let ghost f = on_bill_of(rows@, accounts@, texts(internal_categories@), id@, month@);
    let mut out: Vec<usize> = Vec::new();
    let mut i: usize = 0;
    assert(as_ints(out@) =~= where_at(0, f));
    while i < rows.len()
        invariant
            i <= rows.len(),
            f == on_bill_of(rows@, accounts@, texts(internal_categories@), id@, month@),
            as_ints(out@) == where_at(i as int, f),
        decreases rows.len() - i,
    {
        let ghost now = as_ints(out@);
        let hit = match cashflow_bill_credit_account(&rows[i], accounts, internal_categories) {
            Some(a) => if same(a.as_str(), id) {
                let day = find_closing_day_on(accounts, a.as_str());
                match card_cycle_ref_for(&rows[i].transaction_date, day) {
                    Ok(cycle) => same(cycle.as_str(), month),
                    Err(_) => false,
                }
            } else {
                false
            },
            None => false,
        };
        assert(hit == f(i as int));
        if hit {
            out.push(i);
            assert(as_ints(out@) =~= now.push(i as int));
        }
        i = i + 1;
    }
    out
}

// ---------------------------------------------------------------------------
// What a bill holds

/// Whether the lines of a group are within a size and a number.
pub open spec fn list_within(group: CashflowCategoryGroup, size: int, count: int) -> bool {
    &&& group.transactions <= count
    &&& group.items@.len() <= count
    &&& forall|k: int|
        0 <= k < group.items@.len() ==> size_of((#[trigger] group.items@[k]).amount) <= size
}

/// What a purchase on a bill counts as.
#[derive(Clone, Copy, Debug, PartialEq, Eq, Structural)]
pub enum PurchaseKind {
    Installment,
    Subscription,
    Other,
}

/// What a purchase on a bill counts as.
pub open spec fn purchase_of(tx: TransactionRecord) -> PurchaseKind {
    let description = trimmed(tx.shown());
    if marker_in(tx.raw_description@, description, tx.metadata_json) is Some {
        PurchaseKind::Installment
    } else if subscribes(tx.category_id, tx.raw_description@, description) {
        PurchaseKind::Subscription
    } else {
        PurchaseKind::Other
    }
}

/// What a purchase on a bill counts as.
pub fn purchase_kind(tx: &TransactionRecord) -> (r: PurchaseKind)
    ensures
        r == purchase_of(*tx),
{
    let description = trim(tx.display_description());
    let marker = detect_marker(
        tx.raw_description.as_str(),
        description.as_str(),
        &tx.metadata_json,
    );
    if marker.is_some() {
        PurchaseKind::Installment
    } else if is_subscription(
        &tx.category_id,
        tx.raw_description.as_str(),
        description.as_str(),
    ) {
        PurchaseKind::Subscription
    } else {
        PurchaseKind::Other
    }
}

pub open spec fn source_of(kind: PurchaseKind) -> Seq<char> {
    match kind {
        PurchaseKind::Installment => "card_installment"@,
        PurchaseKind::Subscription => "card_subscription"@,
        PurchaseKind::Other => "card_category"@,
    }
}

/// The positions of the purchases of one kind.
pub open spec fn of_kind(rows: Seq<TransactionRecord>, at: Seq<int>, kind: PurchaseKind) -> Seq<
    int,
>
    decreases at.len(),
{
    if at.len() == 0 {
        Seq::empty()
    } else if purchase_of(rows[at.last()]) == kind {
        of_kind(rows, at.drop_last(), kind).push(at.last())
    } else {
        of_kind(rows, at.drop_last(), kind)
    }
}

/// What the purchases at the positions come to, in their order.
pub open spec fn bundle(rows: Seq<TransactionRecord>, at: Seq<int>, kind: PurchaseKind) -> GroupContent {
    let mine = of_kind(rows, at, kind);
    GroupContent {
        subtotal: sum_of(picked(tx_amounts(rows), mine)),
        transactions: mine.len() as u64,
        items: mine.map_values(|i: int| item_of(rows[i], source_of(kind))),
    }
}

pub proof fn lemma_picked_last(s: Seq<Amount>, at: Seq<int>)
    requires
        at.len() > 0,
    ensures
        exact_sum(picked(s, at)) == exact_sum(picked(s, at.drop_last())) + s[at.last()].scaled(),
{
    assert(picked(s, at).drop_last() =~= picked(s, at.drop_last()));
    assert(picked(s, at).last() == s[at.last()]);
}

/// Each purchase on a bill is an installment, a subscription or another purchase, and
/// only one of them: the three kinds together have as many purchases as the bill, and
/// come to as much.
pub proof fn law_bill_has_each_purchase_once(rows: Seq<TransactionRecord>, at: Seq<int>)
    ensures
        ({
            let parted = of_kind(rows, at, PurchaseKind::Installment);
            let subscribed = of_kind(rows, at, PurchaseKind::Subscription);
            let other = of_kind(rows, at, PurchaseKind::Other);
            let amounts = tx_amounts(rows);
            &&& parted.len() + subscribed.len() + other.len() == at.len()
            &&& exact_sum(picked(amounts, parted)) + exact_sum(picked(amounts, subscribed))
                + exact_sum(picked(amounts, other)) == exact_sum(picked(amounts, at))
        }),
    decreases at.len(),
{
    let amounts = tx_amounts(rows);
    if at.len() == 0 {
        assert(picked(amounts, at) =~= Seq::<Amount>::empty());
        assert(picked(amounts, Seq::<int>::empty()) =~= Seq::<Amount>::empty());
    } else {
        let before = at.drop_last();
        law_bill_has_each_purchase_once(rows, before);
        lemma_picked_last(amounts, at);
        let kind = purchase_of(rows[at.last()]);
        let mine = of_kind(rows, at, kind);
        assert(mine.drop_last() =~= of_kind(rows, before, kind));
        lemma_picked_last(amounts, mine);
    }
}

/// The other purchases at the first `n` positions, by category.
pub open spec fn other_groups(rows: Seq<TransactionRecord>, at: Seq<int>, n: int) -> Map<
    Seq<char>,
    GroupContent,
>
    decreases n,
{
    if n <= 0 {
        Map::empty()
    } else {
        let before = other_groups(rows, at, n - 1);
        let tx = rows[at[n - 1]];
        if purchase_of(tx) == PurchaseKind::Other {
            with_item(before, category_key(tx.category_id), item_of(tx, "card_category"@))
        } else {
            before
        }
    }
}

/// A card bill with the payment that settled it.
pub struct CashflowCardBillDetail {
    pub account_id: String,
    pub payment_transaction_id: Option<String>,
    pub payment_date: Option<Date>,
    pub paid_amount: Amount,
    pub bill_total: Amount,
    pub installments: CashflowCategoryGroup,
    pub subscriptions: CashflowCategoryGroup,
    pub other_categories: Vec<CashflowCategoryGroup>,
}

/// What a card bill tells.
#[verifier::ext_equal]
pub struct BillContent {
    pub account_id: Seq<char>,
    pub payment_transaction_id: Option<Seq<char>>,
    pub payment_date: Option<Date>,
    pub paid_amount: Amount,
    pub bill_total: Amount,
    pub installments: (Seq<char>, GroupContent),
    pub subscriptions: (Seq<char>, GroupContent),
    pub other_categories: Map<Seq<char>, GroupContent>,
}

impl View for CashflowCardBillDetail {
    type V = BillContent;

    open spec fn view(&self) -> BillContent {
        BillContent {
            account_id: self.account_id@,
            payment_transaction_id: opt_text(self.payment_transaction_id),
            payment_date: self.payment_date,
            paid_amount: self.paid_amount,
            bill_total: self.bill_total,
            installments: (self.installments.category_id@, self.installments@),
            subscriptions: (self.subscriptions.category_id@, self.subscriptions@),
            other_categories: by_category(self.other_categories@),
        }
    }
}

/// What a bill comes to.
pub open spec fn bill_total_of(rows: Seq<TransactionRecord>, at: Seq<int>) -> Amount {
    negated(sum_of(picked(tx_amounts(rows), at)))
}

/// What a bill tells, with its payment.
pub open spec fn bill_content(
    id: Seq<char>,
    rows: Seq<TransactionRecord>,
    at: Seq<int>,
    payment: TransactionRecord,
) -> BillContent {
    BillContent {
        account_id: id,
        payment_transaction_id: Some(payment.transaction_id@),
        payment_date: Some(payment.transaction_date),
        paid_amount: magnitude(payment.amount),
        bill_total: bill_total_of(rows, at),
        installments: ("compras-parceladas"@, bundle(rows, at, PurchaseKind::Installment)),
        subscriptions: ("assinaturas"@, bundle(rows, at, PurchaseKind::Subscription)),
        other_categories: other_groups(rows, at, at.len() as int).map_values(
            |c: GroupContent| crate::cashflow::ordered_content(c),
        ),
    }
}

pub open spec fn bill_view() -> spec_fn(CashflowCardBillDetail) -> BillContent {
    |b: CashflowCardBillDetail| b@
}

/// The order of bills: the largest first; equal ones by card.
pub open spec fn bill_le() -> spec_fn(BillContent, BillContent) -> bool {
    |a: BillContent, b: BillContent|
        a.bill_total.scaled() > b.bill_total.scaled() || (a.bill_total.scaled()
            == b.bill_total.scaled() && !precedes(b.account_id, a.account_id))
}

impl Ranked for CashflowCardBillDetail {
    open spec fn le(a: Self, b: Self) -> bool {
        bill_le()(a@, b@)
    }

    proof fn le_total(a: Self, b: Self) {
        if precedes(b.account_id@, a.account_id@) {
            lemma_precedes_asymmetric(b.account_id@, a.account_id@);
        }
    }

    proof fn le_transitive(a: Self, b: Self, c: Self) {
        let (x, y, z) = (a.account_id@, b.account_id@, c.account_id@);
        if precedes(z, x) {
            lemma_precedes_total(x, y);
            if precedes(x, y) {
                lemma_precedes_transitive(z, x, y);
            }
        }
    }

    fn may_precede(&self, other: &Self) -> (r: bool) {
        if other.bill_total.is_less(&self.bill_total) {
            true
        } else if self.bill_total.is_less(&other.bill_total) {
            false
        } else {
            !less(other.account_id.as_str(), self.account_id.as_str())
        }
    }
}

pub(crate) fn copy_tx_amounts(rows: &Vec<TransactionRecord>) -> (r: Vec<Amount>)
    ensures
        r@ == tx_amounts(rows@),
{
    let mut out: Vec<Amount> = Vec::new();
    let mut i: usize = 0;
    while i < rows.len()
        invariant
            i <= rows.len(),
            out@ == tx_amounts(rows@).take(i as int),
        decreases rows.len() - i,
    {
        out.push(rows[i].amount);
        i = i + 1;
        assert(out@ =~= tx_amounts(rows@).take(i as int));
    }
    assert(out@ =~= tx_amounts(rows@));
    out
}

proof fn lemma_of_kind(rows: Seq<TransactionRecord>, at: Seq<int>, kind: PurchaseKind, n: int)
    requires
        ascending(at, n),
    ensures
        ascending(of_kind(rows, at, kind), n),
        of_kind(rows, at, kind).len() <= at.len(),
        of_kind(rows, at, kind).len() > 0 ==> of_kind(rows, at, kind).last() <= at.last(),
    decreases at.len(),
{
    if at.len() > 0 {
        let t = at.drop_last();
        assert forall|i: int| 0 <= i < t.len() implies 0 <= #[trigger] t[i] < n by {
            assert(0 <= at[i] < n);
        }
        lemma_of_kind(rows, t, kind, n);
        let a = of_kind(rows, t, kind);
        let b = of_kind(rows, at, kind);
        if t.len() > 0 {
            assert(at[t.len() - 1] < at[at.len() - 1]);
        }
        if purchase_of(rows[at.last()]) == kind {
            assert forall|i: int| 0 <= i < b.len() implies 0 <= #[trigger] b[i] < n by {
                if i < a.len() {
                    assert(0 <= a[i] < n);
                } else {
                    assert(0 <= at[at.len() - 1] < n);
                }
            }
            assert forall|i: int, j: int| 0 <= i < j < b.len() implies b[i] < b[j] by {
                if j == a.len() {
                    if i < a.len() - 1 {
                        assert(a[i] < a[a.len() - 1]);
                    }
                }
            }
        }
    }
}

fn make_bundle(
    rows: &Vec<TransactionRecord>,
    amounts: &Vec<Amount>,
    at: &Vec<usize>,
    kind: PurchaseKind,
    category: &str,
) -> (r: CashflowCategoryGroup)
    requires
        amounts@ == tx_amounts(rows@),
        full_weight(amounts@) <= limit(),
        ascending(as_ints(at@), rows@.len() as int),
    ensures
        r.category_id@ == category@,
        r@ == bundle(rows@, as_ints(at@), kind),
        list_within(r, full_weight(amounts@), at@.len() as int),
{
    let ghost ints = as_ints(at@);
    let mut mine: Vec<usize> = Vec::new();
    let mut items: Vec<CashflowDetailItem> = Vec::new();
    let mut i: usize = 0;
    let ghost show = |k: int| item_of(rows@[k], source_of(kind));
    assert(ints.take(0) =~= Seq::<int>::empty());
    assert(as_ints(mine@) =~= Seq::<int>::empty());
    assert(item_views(items@) =~= Seq::<int>::empty().map_values(show));
    while i < at.len()
        invariant
            i <= at.len(),
            ints == as_ints(at@),
            show == (|k: int| item_of(rows@[k], source_of(kind))),
            ascending(ints, rows@.len() as int),
            as_ints(mine@) == of_kind(rows@, ints.take(i as int), kind),
            item_views(items@) == of_kind(rows@, ints.take(i as int), kind).map_values(show),
            mine@.len() == items@.len(),
        decreases at.len() - i,
    {
        assert(ints.take(i + 1).drop_last() =~= ints.take(i as int));
        assert(0 <= ints[i as int] < rows@.len());
        let ghost before = of_kind(rows@, ints.take(i as int), kind);
        let tx = &rows[at[i]];
        if purchase_kind(tx) == kind {
            let source = match kind {
                PurchaseKind::Installment => "card_installment",
                PurchaseKind::Subscription => "card_subscription",
                PurchaseKind::Other => "card_category",
            };
            let item = cashflow_item_from_transaction(tx, source);
            let ghost was = items@;
            let ghost had = as_ints(mine@);
            mine.push(at[i]);
            items.push(item);
            assert(as_ints(mine@) =~= had.push(ints[i as int]));
            assert(item_views(items@) =~= item_views(was).push(item@));
            assert(before.push(ints[i as int]).map_values(show) =~= before.map_values(show).push(
                show(ints[i as int]),
            ));
        }
        i = i + 1;
    }
    proof {
        assert(ints.take(i as int) =~= ints);
        lemma_of_kind(rows@, ints, kind, rows@.len() as int);
        assert(as_ints(mine@).len() == mine@.len());
    }
    let subtotal = total_at(amounts, &mine);
    let group = CashflowCategoryGroup {
        category_id: category.to_string(),
        subtotal,
        transactions: mine.len() as u64,
        items,
    };
    assert(group@ =~= bundle(rows@, ints, kind));
    proof {
        let found = of_kind(rows@, ints, kind);
        assert forall|k: int| 0 <= k < group.items@.len() implies size_of(
            (#[trigger] group.items@[k]).amount,
        ) <= full_weight(amounts@) by {
            assert(item_views(group.items@)[k] == show(found[k]));
            assert(0 <= found[k] < rows@.len());
            lemma_member_weight(amounts@, found[k]);
            assert(amounts@[found[k]] == rows@[found[k]].amount);
        }
    }
    group
}

fn make_others(rows: &Vec<TransactionRecord>, at: &Vec<usize>) -> (r: Vec<CashflowCategoryGroup>)
    requires
        full_weight(tx_amounts(rows@)) <= limit(),
        ascending(as_ints(at@), rows@.len() as int),
    ensures
        lists_groups(r@, other_groups(rows@, as_ints(at@), at@.len() as int)),
        within(r@, full_weight(tx_amounts(rows@)), at@.len() as int),
        r@.len() <= at@.len(),
{
    let ghost ints = as_ints(at@);
    let ghost amounts = tx_amounts(rows@);
    let ghost mine = picked(amounts, ints);
    let mut groups: Vec<CashflowCategoryGroup> = Vec::new();
    let mut i: usize = 0;
    proof {
        crate::cashflow::lemma_no_groups();
        assert(groups@ =~= Seq::<CashflowCategoryGroup>::empty());
        lemma_ascending_weight(amounts, ints);
        crate::sums::lemma_weight_take(mine, 0);
    }
    while i < at.len()
        invariant
            i <= at.len(),
            ints == as_ints(at@),
            amounts == tx_amounts(rows@),
            mine == picked(amounts, ints),
            full_weight(mine) <= limit(),
            ascending(ints, rows@.len() as int),
            apart(groups@),
            by_category(groups@) == other_groups(rows@, ints, i as int),
            within(groups@, full_weight(mine.take(i as int)), i as int),
            groups@.len() <= i,
        decreases at.len() - i,
    {
        let ghost w = full_weight(mine.take(i as int));
        proof {
            assert(0 <= ints[i as int] < rows@.len());
            assert(mine.take(i + 1).drop_last() =~= mine.take(i as int));
            crate::sums::lemma_weight_take(mine, i as int);
            crate::sums::lemma_weight_take(mine, i + 1);
            assert(full_weight(mine.take(i + 1)) == w + size_of(rows@[ints[i as int]].amount)
                + one());
        }
        let tx = &rows[at[i]];
        if purchase_kind(tx) == PurchaseKind::Other {
            add_cashflow_group_item(
                &mut groups,
                cashflow_category_id(&tx.category_id),
                cashflow_item_from_transaction(tx, "card_category"),
                Ghost(w),
                Ghost(i as int),
            );
        }
        i = i + 1;
    }
    assert(mine.take(i as int) =~= mine);
    assert(within(groups@, full_weight(amounts), at@.len() as int));
    sorted_cashflow_groups(groups)
}

/// What a bill tells, with its payment.
fn cashflow_card_bill_detail(
    account_id: &String,
    rows: &Vec<TransactionRecord>,
    amounts: &Vec<Amount>,
    at: &Vec<usize>,
    payment: &TransactionRecord,
) -> (r: CashflowCardBillDetail)
    requires
        amounts@ == tx_amounts(rows@),
        full_weight(amounts@) <= limit(),
        ascending(as_ints(at@), rows@.len() as int),
    ensures
        r@ == bill_content(account_id@, rows@, as_ints(at@), *payment),
        bill_within(r, full_weight(amounts@), at@.len() as int),
{
    let total = total_at(amounts, at);
    let installments = make_bundle(
        rows,
        amounts,
        at,
        PurchaseKind::Installment,
        "compras-parceladas",
    );
    let subscriptions = make_bundle(rows, amounts, at, PurchaseKind::Subscription, "assinaturas");
    let other_categories = make_others(rows, at);
    CashflowCardBillDetail {
        account_id: account_id.clone(),
        payment_transaction_id: Some(payment.transaction_id.clone()),
        payment_date: Some(payment.transaction_date),
        paid_amount: payment.amount.abs(),
        bill_total: total.neg(),
        installments,
        subscriptions,
        other_categories,
    }
}

// ---------------------------------------------------------------------------
// Payments

/// The owner of an account; nobody where it is not known.
pub open spec fn owner_of(accounts: Seq<AccountRecord>, id: Seq<char>) -> Seq<char> {
    match last_account(accounts, id) {
        Some(a) => a.owner@,
        None => ""@,
    }
}

fn find_owner(accounts: &Vec<AccountRecord>, id: &str) -> (r: String)
    ensures
        r@ == owner_of(accounts@, id@),
{
    match find_last_account(accounts, id) {
        Some(a) => a.owner.clone(),
        None => "".to_string(),
    }
}

/// Whether a payment may come from the owner of a bill.
pub open spec fn owner_agrees(
    payment: TransactionRecord,
    bill_owner: Seq<char>,
    accounts: Seq<AccountRecord>,
) -> bool {
    match payment.account_id {
        Some(a) => bill_owner.len() == 0 || owner_of(accounts, a@).len() == 0 || bill_owner
            == owner_of(accounts, a@),
        None => bill_owner.len() == 0,
    }
}

/// Whether a payment is within a quarter of a bill.
pub open spec fn amount_agrees(payment: TransactionRecord, total: Amount) -> bool {
    let tolerance = times(total, from_signed(25, 2));
    minus(total, tolerance).scaled() <= size_of(payment.amount) <= plus(total, tolerance).scaled()
}

/// Whether a payment may settle a bill: it settled no other, and owner and amount
/// agree.
pub open spec fn may_settle(
    payment: TransactionRecord,
    bill_owner: Seq<char>,
    total: Amount,
    used: Seq<Seq<char>>,
    accounts: Seq<AccountRecord>,
) -> bool {
    !used.contains(payment.transaction_id@) && owner_agrees(payment, bill_owner, accounts)
        && amount_agrees(payment, total)
}

pub open spec fn days_from(payment: TransactionRecord, start: Date) -> int {
    abs(payment.transaction_date.number() - start.number())
}

/// The first of the payments at the first `k` positions that may settle the bill and
/// lies closest to the start of the month.
pub open spec fn settled_by(
    txs: Seq<TransactionRecord>,
    at: Seq<int>,
    k: int,
    bill_owner: Seq<char>,
    total: Amount,
    start: Date,
    used: Seq<Seq<char>>,
    accounts: Seq<AccountRecord>,
) -> Option<int>
    decreases k,
{
    if k <= 0 {
        None
    } else {
        let best = settled_by(txs, at, k - 1, bill_owner, total, start, used, accounts);
        let p = at[k - 1];
        if !may_settle(txs[p], bill_owner, total, used, accounts) {
            best
        } else {
            match best {
                None => Some(p),
                Some(q) => if days_from(txs[p], start) < days_from(txs[q], start) {
                    Some(p)
                } else {
                    best
                },
            }
        }
    }
}

proof fn lemma_quarter(total: Amount, quarter: Amount, r: Amount)
    requires
        total.in_range(),
        quarter == from_signed(25, 2),
        4 * abs(total.scaled()) + 8 * one() <= limit(),
    ensures
        abs(total.scaled()) * abs(quarter.scaled()) <= limit() * one(),
        abs(r.scaled()) * one() <= abs(total.scaled()) * abs(quarter.scaled()) + one() * one()
            ==> abs(total.scaled() - r.scaled()) <= limit() && abs(total.scaled() + r.scaled())
            <= limit(),
{
    broadcast use crate::amount::lemma_made;

    crate::amount::lemma_one();
    assert(quarter.scaled() == 25 * crate::amount::pow10(26));
    reveal_with_fuel(crate::amount::pow10, 3);
    assert(crate::amount::pow10(28) == 100 * crate::amount::pow10(26));
    let q = quarter.scaled();
    assert(4 * q == one());
    let a = abs(total.scaled());
    assert(a * q <= limit() * one()) by (nonlinear_arith)
        requires
            0 <= a,
            4 * a <= limit(),
            4 * q == one(),
            q >= 0,
            limit() >= 0,
    ;
    if abs(r.scaled()) * one() <= a * q + one() * one() {
        let x = abs(r.scaled());
        assert(4 * x <= a + 4 * one()) by (nonlinear_arith)
            requires
                x * one() <= a * q + one() * one(),
                4 * q == one(),
                one() > 0,
        ;
    }
}

fn does_owner_agree(
    payment: &TransactionRecord,
    bill_owner: &str,
    accounts: &Vec<AccountRecord>,
) -> (r: bool)
    ensures
        r == owner_agrees(*payment, bill_owner@, accounts@),
{
    match &payment.account_id {
        Some(a) => {
            let owner = find_owner(accounts, a.as_str());
            bill_owner.is_empty() || owner.as_str().is_empty() || same(bill_owner, owner.as_str())
        },
        None => bill_owner.is_empty(),
    }
}

/// The payment that settled a bill, where there is one.
fn matched_cashflow_card_payment(
    bill_account_id: &str,
    bill_total: &Amount,
    start: &Date,
    txs: &Vec<TransactionRecord>,
    at: &Vec<usize>,
    used: &Vec<String>,
    accounts: &Vec<AccountRecord>,
) -> (r: Option<usize>)
    requires
        4 * abs(bill_total.scaled()) + 8 * one() <= limit(),
        forall|k: int| 0 <= k < at@.len() ==> (#[trigger] at@[k]) < txs@.len(),
    ensures
        match r {
            Some(p) => p < txs@.len() && settled_by(
                txs@,
                as_ints(at@),
                at@.len() as int,
                owner_of(accounts@, bill_account_id@),
                *bill_total,
                *start,
                texts(used@),
                accounts@,
            ) == Some(p as int),
            None => settled_by(
                txs@,
                as_ints(at@),
                at@.len() as int,
                owner_of(accounts@, bill_account_id@),
                *bill_total,
                *start,
                texts(used@),
                accounts@,
            ) is None,
        },
{
    let owner = find_owner(accounts, bill_account_id);
    let quarter = Amount::new(25, 2);
    bill_total.known();
    proof {
        lemma_quarter(*bill_total, quarter, quarter);
    }
    let tolerance = bill_total.multiplied(&quarter);
    proof {
        lemma_quarter(*bill_total, quarter, tolerance);
    }
    let lower = bill_total.subtracted(&tolerance);
    let upper = bill_total.added(&tolerance);
    let ghost ints = as_ints(at@);
    let mut best: Option<usize> = None;
    let mut k: usize = 0;
    while k < at.len()
        invariant
            k <= at.len(),
            ints == as_ints(at@),
            owner@ == owner_of(accounts@, bill_account_id@),
            lower == minus(*bill_total, times(*bill_total, from_signed(25, 2))),
            upper == plus(*bill_total, times(*bill_total, from_signed(25, 2))),
            forall|j: int| 0 <= j < at@.len() ==> (#[trigger] at@[j]) < txs@.len(),
            match best {
                Some(p) => p < txs@.len() && settled_by(
                    txs@,
                    ints,
                    k as int,
                    owner@,
                    *bill_total,
                    *start,
                    texts(used@),
                    accounts@,
                ) == Some(p as int),
                None => settled_by(
                    txs@,
                    ints,
                    k as int,
                    owner@,
                    *bill_total,
                    *start,
                    texts(used@),
                    accounts@,
                ) is None,
            },
        decreases at.len() - k,
    {
        let p = at[k];
        assert(ints[k as int] == p);
        let tx = &txs[p];
        let paid = tx.amount.abs();
        if !holds(used, tx.transaction_id.as_str()) && does_owner_agree(tx, owner.as_str(), accounts)
            && !paid.is_less(&lower) && !upper.is_less(&paid) {
            let gap = tx.transaction_date.days_since(start);
            let size: i64 = if gap < 0 {
                -gap
            } else {
                gap
            };
            match best {
                None => {
                    best = Some(p);
                },
                Some(q) => {
                    let other = txs[q].transaction_date.days_since(start);
                    let other_size: i64 = if other < 0 {
                        -other
                    } else {
                        other
                    };
                    if size < other_size {
                        best = Some(p);
                    }
                },
            }
        }
        k = k + 1;
    }
    best
}

// ---------------------------------------------------------------------------
// The bills of a month

/// What bills are made of.
pub struct BillSource {
    /// The transactions of the cards.
    pub rows: Vec<TransactionRecord>,
    /// The transactions of the month, among which the payments are.
    pub txs: Vec<TransactionRecord>,
    pub accounts: Vec<AccountRecord>,
    pub internal: Vec<String>,
    pub month: String,
    pub start: Date,
}

impl BillSource {
    pub open spec fn sound(self) -> bool {
        5 * full_weight(tx_amounts(self.rows@)) + 8 * one() <= limit()
    }

    /// Where the payments of card bills stand.
    pub open spec fn payments(self) -> Seq<int> {
        where_at(self.txs@.len() as int, payment_at(self.txs@))
    }

    /// The positions of the rows on a card's bill.
    pub open spec fn members(self, id: Seq<char>) -> Seq<int> {
        bill_rows(self.rows@, self.accounts@, texts(self.internal@), id, self.month@)
    }

    /// The cards with a bill, in order.
    pub open spec fn cards(self) -> Seq<Seq<char>> {
        sorted_keys(
            billed_cards(
                self.rows@,
                self.accounts@,
                texts(self.internal@),
                self.month@,
                self.rows@.len() as int,
            ),
        )
    }

    /// The payments that settled bills.
    pub open spec fn used(self, settled: Seq<(Seq<char>, int)>) -> Seq<Seq<char>> {
        settled.map_values(|s: (Seq<char>, int)| self.txs@[s.1].transaction_id@)
    }

    /// The bills of the first `k` cards that a payment settled, each with its payment.
    pub open spec fn settled(self, k: int) -> Seq<(Seq<char>, int)>
        decreases k,
    {
        if k <= 0 {
            Seq::empty()
        } else {
            let before = self.settled(k - 1);
            let id = self.cards()[k - 1];
            let total = bill_total_of(self.rows@, self.members(id));
            if total.scaled() <= 0 {
                before
            } else {
                match settled_by(
                    self.txs@,
                    self.payments(),
                    self.payments().len() as int,
                    owner_of(self.accounts@, id),
                    total,
                    self.start,
                    self.used(before),
                    self.accounts@,
                ) {
                    Some(p) => before.push((id, p)),
                    None => before,
                }
            }
        }
    }

    pub open spec fn content(self, s: (Seq<char>, int)) -> BillContent {
        bill_content(s.0, self.rows@, self.members(s.0), self.txs@[s.1])
    }

    /// The settled bills of the month, the largest first.
    pub open spec fn bills(self) -> Seq<BillContent> {
        sorted_by(
            self.settled(self.cards().len() as int).map_values(
                |s: (Seq<char>, int)| self.content(s),
            ),
            bill_le(),
        )
    }
}

pub open spec fn bill_views(bills: Seq<CashflowCardBillDetail>) -> Seq<BillContent> {
    bills.map_values(bill_view())
}

/// Whether a bill keeps its categories in order, within a size and a number.
pub open spec fn bill_within(bill: CashflowCardBillDetail, size: int, count: int) -> bool {
    &&& list_within(bill.installments, size, count)
    &&& list_within(bill.subscriptions, size, count)
    &&& in_order(bill.other_categories@)
    &&& apart(bill.other_categories@)
    &&& within(bill.other_categories@, size, count)
    &&& bill.other_categories@.len() <= count
}

pub open spec fn bills_within(bills: Seq<CashflowCardBillDetail>, size: int, count: int) -> bool {
    &&& bills.len() <= count
    &&& forall|i: int| 0 <= i < bills.len() ==> bill_within(#[trigger] bills[i], size, count)
}

proof fn lemma_few_cards(
    rows: Seq<TransactionRecord>,
    accounts: Seq<AccountRecord>,
    internal: Seq<Seq<char>>,
    month: Seq<char>,
    n: int,
)
    requires
        n >= 0,
    ensures
        billed_cards(rows, accounts, internal, month, n).len() <= n,
    decreases n,
{
    if n > 0 {
        lemma_few_cards(rows, accounts, internal, month, n - 1);
    }
}

/// The bills of a month that a payment settled. A payment settles one bill only.
pub fn cashflow_card_bill_details(source: &BillSource, payments: &Vec<usize>) -> (r: Result<
    Vec<CashflowCardBillDetail>,
    String,
>)
    requires
        source.sound(),
        as_ints(payments@) == source.payments(),
    ensures
        match r {
            Ok(bills) => (payments@.len() == 0 ==> bills@.len() == 0) && (
            payments@.len() > 0 ==> first_without_cycle(
                source.rows@,
                source.accounts@,
                texts(source.internal@),
                0,
            ) is None && bill_views(bills@) == source.bills()) && bills_within(
                bills@,
                full_weight(tx_amounts(source.rows@)),
                source.rows@.len() as int,
            ),
            Err(e) => payments@.len() > 0 && match first_without_cycle(
                source.rows@,
                source.accounts@,
                texts(source.internal@),
                0,
            ) {
                Some(i) => e@ == "Falha ao calcular mês deslocado a partir de "@ + iso_text(
                    date_of(
                        source.rows@[i].transaction_date.y(),
                        source.rows@[i].transaction_date.m(),
                        1,
                    ),
                ),
                None => false,
            },
        },
{
    if payments.len() == 0 {
        let none: Vec<CashflowCardBillDetail> = Vec::new();
        return Ok(none);
    }
    let ids = match list_billed_cards(
        &source.rows,
        &source.accounts,
        &source.internal,
        source.month.as_str(),
    ) {
        Ok(v) => v,
        Err(e) => {
            return Err(e);
        },
    };
    let cards = distinct(&ids);
    let amounts = copy_tx_amounts(&source.rows);
    let mut out: Vec<CashflowCardBillDetail> = Vec::new();
    let mut used: Vec<String> = Vec::new();
    let mut k: usize = 0;
    let ghost show = |s: (Seq<char>, int)| source.content(s);
    proof {
        assert(bill_views(out@) =~= source.settled(0).map_values(show));
        assert(texts(used@) =~= source.used(source.settled(0)));
        lemma_where_at(source.txs@.len() as int, payment_at(source.txs@));
        assert forall|j: int| 0 <= j < payments@.len() implies (#[trigger] payments@[j])
            < source.txs@.len() by {
            assert(source.payments()[j] == payments@[j]);
        }
        crate::sums::lemma_weight_mono(amounts@, |i: int| true, |i: int| true);
    }
    while k < cards.len()
        invariant
            k <= cards.len(),
            source.sound(),
            as_ints(payments@) == source.payments(),
            payments@.len() == source.payments().len(),
            forall|j: int|
                0 <= j < payments@.len() ==> (#[trigger] payments@[j]) < source.txs@.len(),
            texts(cards@) == source.cards(),
            amounts@ == tx_amounts(source.rows@),
            full_weight(amounts@) >= 0,
            show == (|s: (Seq<char>, int)| source.content(s)),
            bill_views(out@) == source.settled(k as int).map_values(show),
            texts(used@) == source.used(source.settled(k as int)),
            out@.len() <= k,
            forall|i: int|
                0 <= i < out@.len() ==> bill_within(
                    #[trigger] out@[i],
                    full_weight(amounts@),
                    source.rows@.len() as int,
                ),
        decreases cards.len() - k,
    {
        let ghost before = source.settled(k as int);
        assert(texts(cards@)[k as int] == cards@[k as int]@);
        let at = find_bill_rows(
            &source.rows,
            &source.accounts,
            &source.internal,
            cards[k].as_str(),
            source.month.as_str(),
        );
        proof {
            let f = on_bill_of(
                source.rows@,
                source.accounts@,
                texts(source.internal@),
                cards@[k as int]@,
                source.month@,
            );
            lemma_where_ascending(source.rows@.len() as int, f);
            lemma_where_at(source.rows@.len() as int, f);
            lemma_ascending_weight(amounts@, as_ints(at@));
            assert(as_ints(at@).len() == at@.len());
        }
        let total = total_at(&amounts, &at).neg();
        if total.is_above_zero() {
            let found = matched_cashflow_card_payment(
                cards[k].as_str(),
                &total,
                &source.start,
                &source.txs,
                payments,
                &used,
                &source.accounts,
            );
            match found {
                Some(p) => {
                    let payment = &source.txs[p];
                    let detail = cashflow_card_bill_detail(
                        &cards[k],
                        &source.rows,
                        &amounts,
                        &at,
                        payment,
                    );
                    let ghost was = out@;
                    let ghost had = texts(used@);
                    used.push(payment.transaction_id.clone());
                    out.push(detail);
                    proof {
                        let s = (cards@[k as int]@, p as int);
                        assert(source.settled(k + 1) == before.push(s));
                        assert(bill_views(out@) =~= bill_views(was).push(detail@));
                        assert(before.push(s).map_values(show) =~= before.map_values(show).push(
                            show(s),
                        ));
                        assert(texts(used@) =~= had.push(payment.transaction_id@));
                        assert(source.used(before.push(s)) =~= source.used(before).push(
                            source.txs@[s.1].transaction_id@,
                        ));
                        assert(bill_within(
                            detail,
                            full_weight(amounts@),
                            source.rows@.len() as int,
                        ));
                    }
                },
                None => {},
            }
        }
        k = k + 1;
    }
    let ghost list = out@;
    proof {
        lemma_sorted_views(list, bill_view(), bill_le());
        assert(texts(cards@).len() == cards@.len());
    }
    let r = sort(out);
    proof {
        crate::order::lemma_same_elements(list, r@);
        assert forall|i: int| 0 <= i < r@.len() implies bill_within(
            #[trigger] r@[i],
            full_weight(amounts@),
            source.rows@.len() as int,
        ) by {
            assert(r@.contains(r@[i]));
            let x = choose|x: int| 0 <= x < list.len() && list[x] == r@[i];
            assert(bill_within(list[x], full_weight(amounts@), source.rows@.len() as int));
        }
        lemma_few_cards(
            source.rows@,
            source.accounts@,
            texts(source.internal@),
            source.month@,
            source.rows@.len() as int,
        );
        lemma_few_keys(
            billed_cards(
                source.rows@,
                source.accounts@,
                texts(source.internal@),
                source.month@,
                source.rows@.len() as int,
            ),
        );
    }
    Ok(r)
}

proof fn lemma_settled_unused(source: BillSource, k: int, i: int)
    requires
        0 <= i < source.settled(k).len(),
    ensures
        forall|j: int|
            0 <= j < i ==> source.txs@[source.settled(k)[i].1].transaction_id@
                != source.txs@[(#[trigger] source.settled(k)[j]).1].transaction_id@,
    decreases k,
{
    if k > 0 {
        let before = source.settled(k - 1);
        if i < before.len() {
            lemma_settled_unused(source, k - 1, i);
            assert forall|j: int| 0 <= j < i implies source.txs@[source.settled(
                k,
            )[i].1].transaction_id@ != source.txs@[(#[trigger] source.settled(
                k,
            )[j]).1].transaction_id@ by {
                assert(source.settled(k)[j] == before[j]);
            }
        } else {
            let id = source.cards()[k - 1];
            let total = bill_total_of(source.rows@, source.members(id));
            let p = source.settled(k)[i].1;
            lemma_settler_may(
                source.txs@,
                source.payments(),
                source.payments().len() as int,
                owner_of(source.accounts@, id),
                total,
                source.start,
                source.used(before),
                source.accounts@,
            );
            assert forall|j: int| 0 <= j < i implies source.txs@[source.settled(
                k,
            )[i].1].transaction_id@ != source.txs@[(#[trigger] source.settled(
                k,
            )[j]).1].transaction_id@ by {
                assert(source.settled(k)[j] == before[j]);
                assert(source.used(before)[j] == source.txs@[before[j].1].transaction_id@);
            }
        }
    }
}

proof fn lemma_settler_may(
    txs: Seq<TransactionRecord>,
    at: Seq<int>,
    k: int,
    bill_owner: Seq<char>,
    total: Amount,
    start: Date,
    used: Seq<Seq<char>>,
    accounts: Seq<AccountRecord>,
)
    ensures
        match settled_by(txs, at, k, bill_owner, total, start, used, accounts) {
            Some(p) => may_settle(txs[p], bill_owner, total, used, accounts),
            None => true,
        },
    decreases k,
{
    if k > 0 {
        lemma_settler_may(txs, at, k - 1, bill_owner, total, start, used, accounts);
    }
}

/// No payment settles two bills.
pub proof fn law_payment_settles_one_bill(source: BillSource, i: int, j: int)
    requires
        0 <= i < source.settled(source.cards().len() as int).len(),
        0 <= j < source.settled(source.cards().len() as int).len(),
        i != j,
    ensures
        source.txs@[source.settled(source.cards().len() as int)[i].1].transaction_id@
            != source.txs@[source.settled(source.cards().len() as int)[j].1].transaction_id@,
{
    let k = source.cards().len() as int;
    let all = source.settled(k);
    if i < j {
        lemma_settled_unused(source, k, j);
        assert(all[i] == source.settled(k)[i]);
    } else {
        lemma_settled_unused(source, k, i);
        assert(all[j] == source.settled(k)[j]);
    }
}

} // verus!
