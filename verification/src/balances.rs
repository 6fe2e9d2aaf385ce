//! The reports on balances and on installments.

use crate::amount::{abs, from_signed, limit, magnitude, one, quotient, sum_of, zero, Amount};
use crate::cashflow::{find_last_account, last_account};
use crate::date::{iso, iso_text, month_abbreviation, short_date_pt, signed_text, two_digits, Date};
use crate::description::normalize_inline_text;
use crate::human::{bold, bold_text, capitalize, capitalized, short_date, short_date_text};
use crate::money::{brl_abs, brl_abs_text, brl_signed, brl_signed_text};
use crate::order::{
    as_ints, distinct, find_positions, lemma_positions, positions, sort, sorted, sorted_keys, Ranked,
};
use crate::records::{opt_clone, AccountRecord};
use crate::summary::AccountSnapshotRecord;
use crate::sums::{
    full_weight, lemma_member_weight, lemma_weight_mono, lemma_weight_take, picked,
    shared_by, total_at, total_of_all, weight,
};
use crate::text::{
    chars, digits, from_chars, glue, joined, number, push_text, put, same, texts, words,
};
use vstd::prelude::*;

verus! {

// ---------------------------------------------------------------------------
// Balances

/// What a checking account holds.
pub struct BalanceRow {
    pub account_id: String,
    pub owner: String,
    pub label: String,
    pub balance: Option<Amount>,
    pub currency_code: Option<String>,
    pub snapshot_date: Date,
}

/// The account of a snapshot: the last with its identifier, if that is a checking
/// account.
pub open spec fn checking_account(accounts: Seq<AccountRecord>, id: Seq<char>) -> Option<
    AccountRecord,
> {
    if id.len() == 0 {
        None
    } else {
        match last_account(accounts, id) {
            Some(a) => if a.account_type@ == "checking"@ {
                Some(a)
            } else {
                None
            },
            None => None,
        }
    }
}

pub open spec fn balance_row(a: AccountRecord, s: AccountSnapshotRecord) -> BalanceRow {
    BalanceRow {
        account_id: a.account_id,
        owner: a.owner,
        label: a.label,
        balance: s.balance,
        currency_code: s.currency_code,
        snapshot_date: s.snapshot_date,
    }
}

/// The balances of the checking accounts, in the order of the snapshots.
pub open spec fn balance_rows(accounts: Seq<AccountRecord>, snapshots: Seq<AccountSnapshotRecord>) -> Seq<
    BalanceRow,
>
    decreases snapshots.len(),
{
    if snapshots.len() == 0 {
        Seq::empty()
    } else {
        let before = balance_rows(accounts, snapshots.drop_last());
        match checking_account(accounts, snapshots.last().account_id@) {
            Some(a) => before.push(balance_row(a, snapshots.last())),
            None => before,
        }
    }
}

/// The balances of the checking accounts, in the order of the snapshots.
pub fn collect_balances(
    accounts: &Vec<AccountRecord>,
    snapshots: &Vec<AccountSnapshotRecord>,
) -> (r: Vec<BalanceRow>)
    ensures
        r@ == balance_rows(accounts@, snapshots@),
{
    let mut out: Vec<BalanceRow> = Vec::new();
    let mut i: usize = 0;
    assert(snapshots@.take(0) =~= Seq::<AccountSnapshotRecord>::empty());
    while i < snapshots.len()
        invariant
            i <= snapshots.len(),
            out@ == balance_rows(accounts@, snapshots@.take(i as int)),
        decreases snapshots.len() - i,
    {
        assert(snapshots@.take(i + 1).drop_last() =~= snapshots@.take(i as int));
        let s = &snapshots[i];
        if !s.account_id.as_str().is_empty() {
            match find_last_account(accounts, s.account_id.as_str()) {
                Some(a) => {
                    if same(a.account_type.as_str(), "checking") {
                        let row = BalanceRow {
                            account_id: a.account_id.clone(),
                            owner: a.owner.clone(),
                            label: a.label.clone(),
                            balance: s.balance,
                            currency_code: opt_clone(&s.currency_code),
                            snapshot_date: s.snapshot_date,
                        };
                        assert(row == balance_row(*a, *s));
                        out.push(row);
                    }
                },
                None => {},
            }
        }
        i = i + 1;
    }
    assert(snapshots@.take(i as int) =~= snapshots@);
    out
}

/// The balance of a row, nothing where it is not known.
pub open spec fn held(row: BalanceRow) -> Amount {
    match row.balance {
        Some(b) => b,
        None => zero(),
    }
}

pub open spec fn held_amounts(rows: Seq<BalanceRow>) -> Seq<Amount> {
    rows.map_values(|r: BalanceRow| held(r))
}

pub open spec fn owners_of(rows: Seq<BalanceRow>) -> Seq<Seq<char>> {
    rows.map_values(|r: BalanceRow| r.owner@)
}

pub open spec fn balance_line(row: BalanceRow) -> Seq<char> {
    "  💰 "@ + (if row.label@.len() == 0 {
        row.account_id@
    } else {
        row.label@
    }) + " · "@ + brl_signed_text(held(row)) + " ("@ + short_date_text(row.snapshot_date) + ")"@
}

/// The rows of an owner.
pub open spec fn rows_of_owner(rows: Seq<BalanceRow>, owner: Seq<char>) -> Seq<int> {
    positions(owners_of(rows), owner)
}

/// The lines of an owner: the accounts, and their sum where there are several.
pub open spec fn owner_lines(rows: Seq<BalanceRow>, owner: Seq<char>) -> Seq<Seq<char>> {
    let at = rows_of_owner(rows, owner);
    at.map_values(|i: int| balance_line(rows[i])) + (if at.len() > 1 {
        seq![
            "  └ "@ + bold_text(capitalized(owner)) + ": "@ + brl_signed_text(
                sum_of(picked(held_amounts(rows), at)),
            ),
        ]
    } else {
        Seq::empty()
    })
}

/// The lines of the first `k` owners, and the balances in the order of the lines.
pub open spec fn owners_lines(rows: Seq<BalanceRow>, owners: Seq<Seq<char>>, k: int) -> Seq<
    Seq<char>,
>
    decreases k,
{
    if k <= 0 {
        Seq::empty()
    } else {
        owners_lines(rows, owners, k - 1) + owner_lines(rows, owners[k - 1])
    }
}

pub open spec fn owners_amounts(rows: Seq<BalanceRow>, owners: Seq<Seq<char>>, k: int) -> Seq<Amount>
    decreases k,
{
    if k <= 0 {
        Seq::empty()
    } else {
        owners_amounts(rows, owners, k - 1) + picked(
            held_amounts(rows),
            rows_of_owner(rows, owners[k - 1]),
        )
    }
}

/// The report on balances.
pub open spec fn balances_report(rows: Seq<BalanceRow>) -> Seq<Seq<char>> {
    let owners = sorted_keys(owners_of(rows));
    let n = owners.len() as int;
    if rows.len() == 0 {
        seq![
            bold_text("Saldo em conta"@),
            "  _(nenhum snapshot disponível — rode `finance sync pluggy` para atualizar)_"@,
        ]
    } else {
        seq![bold_text("Saldo em conta"@)] + owners_lines(rows, owners, n) + seq![
            "  "@ + bold_text("Total"@) + ": "@ + brl_signed_text(
                sum_of(owners_amounts(rows, owners, n)),
            ),
        ]
    }
}

fn make_balance_line(row: &BalanceRow) -> (r: String)
    ensures
        r@ == balance_line(*row),
{
    let mut out = chars("  💰 ");
    if row.label.as_str().is_empty() {
        put(&mut out, row.account_id.as_str());
    } else {
        put(&mut out, row.label.as_str());
    }
    put(&mut out, " · ");
    let balance = match row.balance {
        Some(b) => b,
        None => Amount::none(),
    };
    put(&mut out, brl_signed(balance).as_str());
    put(&mut out, " (");
    put(&mut out, short_date(&row.snapshot_date).as_str());
    put(&mut out, ")");
    assert(out@ =~= balance_line(*row));
    from_chars(&out)
}

fn list_owners(rows: &Vec<BalanceRow>) -> (r: (Vec<String>, Vec<Amount>))
    ensures
        texts(r.0@) == owners_of(rows@),
        r.1@ == held_amounts(rows@),
{
    let mut owners: Vec<String> = Vec::new();
    let mut amounts: Vec<Amount> = Vec::new();
    let mut i: usize = 0;
    assert(texts(owners@) =~= owners_of(rows@).take(0));
    while i < rows.len()
        invariant
            i <= rows.len(),
            texts(owners@) == owners_of(rows@).take(i as int),
            amounts@ == held_amounts(rows@).take(i as int),
        decreases rows.len() - i,
    {
        push_text(&mut owners, rows[i].owner.clone());
        amounts.push(
            match rows[i].balance {
                Some(b) => b,
                None => Amount::none(),
            },
        );
        i = i + 1;
        assert(texts(owners@) =~= owners_of(rows@).take(i as int));
        assert(amounts@ =~= held_amounts(rows@).take(i as int));
    }
    assert(owners_of(rows@).take(i as int) =~= owners_of(rows@));
    assert(held_amounts(rows@).take(i as int) =~= held_amounts(rows@));
    (owners, amounts)
}

fn push_owner_lines(
    out: &mut Vec<String>,
    rows: &Vec<BalanceRow>,
    amounts: &Vec<Amount>,
    at: &Vec<usize>,
    owner: &str,
)
    requires
        amounts@ == held_amounts(rows@),
        full_weight(amounts@) <= limit(),
        as_ints(at@) == rows_of_owner(rows@, owner@),
    ensures
        texts(final(out)@) == texts(old(out)@) + owner_lines(rows@, owner@),
{
    let ghost start = texts(out@);
    let ghost ints = as_ints(at@);
    let ghost want = ints.map_values(|i: int| balance_line(rows@[i]));
    proof {
        lemma_positions(owners_of(rows@), owner@);
        assert(ints.len() == at@.len());
    }
    let mut k: usize = 0;
    assert(start + want.take(0) =~= start);
    while k < at.len()
        invariant
            k <= at.len(),
            ints == as_ints(at@),
            ints.len() == at@.len(),
            forall|j: int| 0 <= j < ints.len() ==> 0 <= #[trigger] ints[j] < rows@.len(),
            want == ints.map_values(|i: int| balance_line(rows@[i])),
            texts(out@) == start + want.take(k as int),
        decreases at.len() - k,
    {
        assert(0 <= ints[k as int] < rows@.len());
        let line = make_balance_line(&rows[at[k]]);
        push_text(out, line);
        k = k + 1;
        assert(texts(out@) =~= start + want.take(k as int));
    }
    assert(want.take(k as int) =~= want);
    if at.len() > 1 {
        let total = total_at(amounts, at);
        let mut line = chars("  └ ");
        put(&mut line, bold(capitalize(owner).as_str()).as_str());
        put(&mut line, ": ");
        put(&mut line, brl_signed(total).as_str());
        assert(line@ =~= "  └ "@ + bold_text(capitalized(owner@)) + ": "@ + brl_signed_text(
            sum_of(picked(held_amounts(rows@), rows_of_owner(rows@, owner@))),
        ));
        push_text(out, from_chars(&line));
    }
    assert(texts(out@) =~= start + owner_lines(rows@, owner@));
}

fn pick_amounts(amounts: &Vec<Amount>, at: &Vec<usize>) -> (r: Vec<Amount>)
    requires
        forall|k: int| 0 <= k < at@.len() ==> (#[trigger] at@[k]) < amounts@.len(),
    ensures
        r@ == picked(amounts@, as_ints(at@)),
{
    let mut out: Vec<Amount> = Vec::new();
    let mut k: usize = 0;
    let ghost want = picked(amounts@, as_ints(at@));
    while k < at.len()
        invariant
            k <= at.len(),
            forall|j: int| 0 <= j < at@.len() ==> (#[trigger] at@[j]) < amounts@.len(),
            want == picked(amounts@, as_ints(at@)),
            out@ == want.take(k as int),
        decreases at.len() - k,
    {
        out.push(amounts[at[k]]);
        k = k + 1;
        assert(out@ =~= want.take(k as int));
    }
    assert(out@ =~= want);
    out
}

/// The rows of the first `k` owners.
spec fn of_owners(rows: Seq<BalanceRow>, owners: Seq<Seq<char>>, k: int) -> spec_fn(int) -> bool {
    |i: int| exists|j: int| 0 <= j < k && #[trigger] owners[j] == rows[i].owner@
}

/// The places at which the key stands.
spec fn with_key(keys: Seq<Seq<char>>, key: Seq<char>) -> spec_fn(int) -> bool {
    |i: int| keys[i] == key
}

proof fn lemma_positions_weight(s: Seq<Amount>, keys: Seq<Seq<char>>, key: Seq<char>)
    requires
        s.len() == keys.len(),
    ensures
        full_weight(picked(s, positions(keys, key))) == weight(s, with_key(keys, key)),
    decreases keys.len(),
{
    let f = with_key(keys, key);
    if keys.len() > 0 {
        let t = s.drop_last();
        let ks = keys.drop_last();
        let g = with_key(ks, key);
        lemma_positions_weight(t, ks, key);
        lemma_positions(ks, key);
        lemma_weight_mono(t, f, g);
        lemma_weight_mono(t, g, f);
        let before = positions(ks, key);
        assert(picked(s, before) =~= picked(t, before));
        if keys.last() == key {
            assert(picked(s, positions(keys, key)).drop_last() =~= picked(s, before));
        }
    } else {
        assert(picked(s, positions(keys, key)) =~= s);
    }
}

/// The rows of one more owner add their weight to those of the owners before.
proof fn lemma_owner_weight(rows: Seq<BalanceRow>, owners: Seq<Seq<char>>, k: int)
    requires
        0 <= k < owners.len(),
        forall|i: int, j: int|
            0 <= i < j < owners.len() ==> #[trigger] owners[i] != #[trigger] owners[j],
    ensures
        weight(held_amounts(rows), of_owners(rows, owners, k)) + full_weight(
            picked(held_amounts(rows), rows_of_owner(rows, owners[k])),
        ) == weight(held_amounts(rows), of_owners(rows, owners, k + 1)),
{
    let s = held_amounts(rows);
    let before = of_owners(rows, owners, k);
    let after = of_owners(rows, owners, k + 1);
    let mine = with_key(owners_of(rows), owners[k]);
    lemma_positions_weight(s, owners_of(rows), owners[k]);
    assert forall|i: int| 0 <= i < s.len() implies !(#[trigger] before(i) && mine(i)) by {
        if before(i) && mine(i) {
            let j = choose|j: int| 0 <= j < k && #[trigger] owners[j] == rows[i].owner@;
            assert(owners[j] != owners[k]);
        }
    }
    assert forall|i: int| 0 <= i < s.len() implies #[trigger] after(i) == (before(i) || mine(
        i,
    )) by {
        if after(i) {
            let j = choose|j: int| 0 <= j < k + 1 && #[trigger] owners[j] == rows[i].owner@;
            if j < k {
                assert(before(i));
            }
        }
        if mine(i) {
            assert(owners[k] == rows[i].owner@);
        }
        if before(i) {
            let j = choose|j: int| 0 <= j < k && #[trigger] owners[j] == rows[i].owner@;
            assert(owners[j] == rows[i].owner@);
        }
    }
    crate::sums::lemma_weight_disjoint(s, before, mine, after);
}

proof fn lemma_joined_weight(a: Seq<Amount>, b: Seq<Amount>)
    ensures
        full_weight(a + b) == full_weight(a) + full_weight(b),
    decreases b.len(),
{
    if b.len() == 0 {
        assert(a + b =~= a);
    } else {
        lemma_joined_weight(a, b.drop_last());
        assert((a + b).drop_last() =~= a + b.drop_last());
    }
}

/// The report on balances: by owner, each account with its balance, and the sums.
pub fn report_balances(rows: &Vec<BalanceRow>) -> (r: Vec<String>)
    requires
        full_weight(held_amounts(rows@)) <= limit(),
    ensures
        texts(r@) == balances_report(rows@),
{
    let mut out: Vec<String> = Vec::new();
    assert(texts(out@) =~= Seq::<Seq<char>>::empty());
    push_text(&mut out, bold("Saldo em conta"));
    assert(texts(out@) =~= seq![bold_text("Saldo em conta"@)]);
    if rows.len() == 0 {
        push_text(
            &mut out,
            "  _(nenhum snapshot disponível — rode `finance sync pluggy` para atualizar)_".to_string(),
        );
        assert(texts(out@) =~= balances_report(rows@));
        return out;
    }
    let ghost head = texts(out@);
    let (keys, amounts) = list_owners(rows);
    let owners = distinct(&keys);
    let ghost list = texts(owners@);
    let mut all: Vec<Amount> = Vec::new();
    let mut k: usize = 0;
    proof {
        crate::order::law_sorted_keys(owners_of(rows@));
        assert forall|i: int, j: int| 0 <= i < j < list.len() implies #[trigger] list[i]
            != #[trigger] list[j] by {
            assert(crate::text::precedes(list[i], list[j]));
            crate::text::lemma_precedes_irreflexive(list[i]);
        }
        lemma_weight_mono(
            amounts@,
            of_owners(rows@, list, 0),
            of_owners(rows@, list, 0),
        );
        assert(list.len() == owners@.len());
        assert(head + owners_lines(rows@, list, 0) =~= head);
        assert(all@ =~= owners_amounts(rows@, list, 0));
    }
    while k < owners.len()
        invariant
            k <= owners.len(),
            full_weight(amounts@) <= limit(),
            forall|i: int, j: int|
                0 <= i < j < list.len() ==> #[trigger] list[i] != #[trigger] list[j],
            texts(keys@) == owners_of(rows@),
            amounts@ == held_amounts(rows@),
            list == texts(owners@),
            list.len() == owners@.len(),
            texts(out@) == head + owners_lines(rows@, list, k as int),
            all@ == owners_amounts(rows@, list, k as int),
            full_weight(all@) <= weight(amounts@, of_owners(rows@, list, k as int)),
        decreases owners.len() - k,
    {
        assert(list[k as int] == owners@[k as int]@);
        let at = find_positions(&keys, owners[k].as_str());
        let ghost had = all@;
        proof {
            lemma_positions(owners_of(rows@), owners@[k as int]@);
            assert(as_ints(at@).len() == at@.len());
            assert forall|j: int| 0 <= j < at@.len() implies (#[trigger] at@[j]) < amounts@.len() by {
                assert(as_ints(at@)[j] == at@[j]);
            }
        }
        push_owner_lines(&mut out, rows, &amounts, &at, owners[k].as_str());
        let mut more = pick_amounts(&amounts, &at);
        let ghost added = more@;
        all.append(&mut more);
        proof {
            assert(all@ =~= had + added);
            lemma_joined_weight(had, added);
            lemma_owner_weight(rows@, list, k as int);
            assert(head + (owners_lines(rows@, list, k as int) + owner_lines(
                rows@,
                owners@[k as int]@,
            )) =~= head + owners_lines(rows@, list, k as int) + owner_lines(
                rows@,
                owners@[k as int]@,
            ));
        }
        k = k + 1;
    }
    proof {
        lemma_weight_mono(amounts@, of_owners(rows@, list, k as int), |i: int| true);
    }
    let total = total_of_all(&all);
    let mut line = chars("  ");
    put(&mut line, bold("Total").as_str());
    put(&mut line, ": ");
    put(&mut line, brl_signed(total).as_str());
    assert(line@ =~= "  "@ + bold_text("Total"@) + ": "@ + brl_signed_text(
        sum_of(owners_amounts(rows@, list, list.len() as int)),
    ));
    push_text(&mut out, from_chars(&line));
    assert(texts(out@) =~= balances_report(rows@));
    out
}

// ---------------------------------------------------------------------------
// Installments

/// A purchase in installments.
pub struct InstallmentChain {
    pub account_id: String,
    pub base_description: String,
    pub total: u32,
    pub current: u32,
    pub first_date: Date,
    pub projected_end: Date,
    pub remaining: u32,
    pub released_next_month: bool,
    pub total_amount: Amount,
}

/// A purchase in installments, its dates as texts.
pub struct InstallmentChainView {
    pub account_id: String,
    pub base_description: String,
    pub total: u32,
    pub current: u32,
    pub first_date: String,
    pub projected_end: String,
    pub remaining: u32,
    pub released_next_month: bool,
    pub total_amount: Amount,
}

impl InstallmentChainView {
    /// The purchase with its dates as texts.
    pub fn from_chain(chain: &InstallmentChain) -> (r: InstallmentChainView)
        ensures
            r.account_id == chain.account_id,
            r.base_description == chain.base_description,
            r.total == chain.total,
            r.current == chain.current,
            r.first_date@ == iso_text(chain.first_date),
            r.projected_end@ == iso_text(chain.projected_end),
            r.remaining == chain.remaining,
            r.released_next_month == chain.released_next_month,
            r.total_amount == chain.total_amount,
    {
        InstallmentChainView {
            account_id: chain.account_id.clone(),
            base_description: chain.base_description.clone(),
            total: chain.total,
            current: chain.current,
            first_date: iso(&chain.first_date),
            projected_end: iso(&chain.projected_end),
            remaining: chain.remaining,
            released_next_month: chain.released_next_month,
            total_amount: chain.total_amount,
        }
    }
}

/// A purchase in the order of its end: where it stands among the purchases.
pub struct EndingChain {
    pub at: usize,
    pub end: Date,
}

impl Ranked for EndingChain {
    open spec fn le(a: Self, b: Self) -> bool {
        !b.end.before(a.end)
    }

    proof fn le_total(a: Self, b: Self) {
    }

    proof fn le_transitive(a: Self, b: Self, c: Self) {
    }

    fn may_precede(&self, other: &Self) -> (r: bool) {
        !other.end.is_before(&self.end)
    }
}

/// The purchases that end with the next month, among the first `n`.
pub open spec fn releasing(chains: Seq<InstallmentChain>, n: int) -> Seq<EndingChain>
    decreases n,
{
    if n <= 0 {
        Seq::empty()
    } else {
        let before = releasing(chains, n - 1);
        let c = chains[n - 1];
        if c.remaining > 0 && c.released_next_month {
            before.push(EndingChain { at: (n - 1) as usize, end: c.projected_end })
        } else {
            before
        }
    }
}

/// The purchases that go on, among the first `n`.
pub open spec fn ongoing(chains: Seq<InstallmentChain>, n: int) -> Seq<EndingChain>
    decreases n,
{
    if n <= 0 {
        Seq::empty()
    } else {
        let before = ongoing(chains, n - 1);
        let c = chains[n - 1];
        if c.remaining > 1 && !c.released_next_month {
            before.push(EndingChain { at: (n - 1) as usize, end: c.projected_end })
        } else {
            before
        }
    }
}

/// What the active purchases ask each month, among the first `n`.
pub open spec fn monthly_parts(chains: Seq<InstallmentChain>, n: int) -> Seq<Amount>
    decreases n,
{
    if n <= 0 {
        Seq::empty()
    } else {
        let before = monthly_parts(chains, n - 1);
        let c = chains[n - 1];
        if c.remaining > 0 {
            before.push(
                if c.total > 0 {
                    quotient(c.total_amount, from_signed(c.total as int, 0))
                } else {
                    zero()
                },
            )
        } else {
            before
        }
    }
}

pub open spec fn full_date_text(d: Date) -> Seq<char> {
    two_digits(d.d()) + "/"@ + month_abbreviation(d.m()) + "/"@ + signed_text(d.y())
}

pub open spec fn chain_line(c: InstallmentChain) -> Seq<char> {
    joined(words(c.base_description@), seq![' ']) + " · "@ + digits(c.current as nat) + "/"@
        + digits(c.total as nat) + " · "@ + brl_signed_text(c.total_amount) + " · termina "@
        + full_date_text(c.projected_end)
}

pub open spec fn chain_lines(chains: Seq<InstallmentChain>, list: Seq<EndingChain>) -> Seq<Seq<char>> {
    list.map_values(|e: EndingChain| chain_line(chains[e.at as int]))
}

/// A part of the report with its title, where it has lines.
pub open spec fn titled(title: Seq<char>, lines: Seq<Seq<char>>) -> Seq<Seq<char>> {
    if lines.len() == 0 {
        Seq::empty()
    } else {
        seq![title] + lines + seq![""@]
    }
}

/// Whether a purchase is still paid.
pub open spec fn any_active(chains: Seq<InstallmentChain>) -> bool {
    exists|i: int| 0 <= i < chains.len() && (#[trigger] chains[i]).remaining > 0
}

/// The report on installments.
pub open spec fn installments_report(chains: Seq<InstallmentChain>) -> Seq<Seq<char>> {
    let n = chains.len() as int;
    if !any_active(chains) {
        seq!["📦 *Parcelas ativas*"@, ""@, "Nenhuma parcela ativa encontrada."@]
    } else {
        seq!["📦 *Parcelas ativas*"@, ""@] + titled(
            "🔔 *Liberam no próximo mês*"@,
            chain_lines(chains, releasing(chains, n)),
        ) + titled(
            "📅 *Em andamento*"@,
            chain_lines(chains, sorted(ongoing(chains, n))),
        ) + seq![
            "Compromisso mensal estimado: "@ + brl_abs_text(
                magnitude(sum_of(monthly_parts(chains, n))),
            ),
        ]
    }
}

fn make_chain_line(c: &InstallmentChain) -> (r: String)
    ensures
        r@ == chain_line(*c),
{
    let mut out = chars(normalize_inline_text(c.base_description.as_str()).as_str());
    put(&mut out, " · ");
    put(&mut out, number(c.current as u64).as_str());
    put(&mut out, "/");
    put(&mut out, number(c.total as u64).as_str());
    put(&mut out, " · ");
    put(&mut out, brl_signed(c.total_amount).as_str());
    put(&mut out, " · termina ");
    put(&mut out, short_date_pt(&c.projected_end).as_str());
    assert(out@ =~= chain_line(*c));
    from_chars(&out)
}

fn push_titled(out: &mut Vec<String>, title: &str, chains: &Vec<InstallmentChain>, list: &Vec<EndingChain>)
    requires
        forall|k: int| 0 <= k < list@.len() ==> (#[trigger] list@[k]).at < chains@.len(),
    ensures
        texts(final(out)@) == texts(old(out)@) + titled(title@, chain_lines(chains@, list@)),
{
    let ghost start = texts(out@);
    let ghost want = chain_lines(chains@, list@);
    if list.len() == 0 {
        assert(start + titled(title@, want) =~= start);
        return;
    }
    push_text(out, title.to_string());
    let ghost head = texts(out@);
    let mut k: usize = 0;
    assert(head + want.take(0) =~= head);
    while k < list.len()
        invariant
            k <= list.len(),
            forall|j: int| 0 <= j < list@.len() ==> (#[trigger] list@[j]).at < chains@.len(),
            want == chain_lines(chains@, list@),
            texts(out@) == head + want.take(k as int),
        decreases list.len() - k,
    {
        let line = make_chain_line(&chains[list[k].at]);
        push_text(out, line);
        k = k + 1;
        assert(texts(out@) =~= head + want.take(k as int));
    }
    assert(want.take(k as int) =~= want);
    push_text(out, "".to_string());
    assert(texts(out@) =~= start + titled(title@, want));
}

/// The amounts of the purchases.
pub open spec fn chain_amounts(chains: Seq<InstallmentChain>) -> Seq<Amount> {
    chains.map_values(|c: InstallmentChain| c.total_amount)
}

proof fn lemma_list_bounds(list: Seq<EndingChain>, r: Seq<EndingChain>, n: int)
    requires
        forall|k: int| 0 <= k < list.len() ==> (#[trigger] list[k]).at < n,
        list.to_multiset() == r.to_multiset(),
    ensures
        forall|k: int| 0 <= k < r.len() ==> (#[trigger] r[k]).at < n,
{
    crate::order::lemma_same_elements(list, r);
    assert forall|k: int| 0 <= k < r.len() implies (#[trigger] r[k]).at < n by {
        assert(r.contains(r[k]));
        let j = choose|j: int| 0 <= j < list.len() && list[j] == r[k];
        assert(list[j].at < n);
    }
}

/// The report on installments: what ends with the next month, what goes on, and what
/// the active purchases ask each month.
pub fn report_installments(chains: &Vec<InstallmentChain>) -> (r: Vec<String>)
    requires
        full_weight(chain_amounts(chains@)) + chains@.len() * one() <= limit(),
    ensures
        texts(r@) == installments_report(chains@),
{
    let mut out: Vec<String> = Vec::new();
    assert(texts(out@) =~= Seq::<Seq<char>>::empty());
    push_text(&mut out, "📦 *Parcelas ativas*".to_string());
    push_text(&mut out, "".to_string());
    assert(texts(out@) =~= seq!["📦 *Parcelas ativas*"@, ""@]);
    let ghost amounts = chain_amounts(chains@);
    let ghost w = full_weight(amounts);
    let ghost n = chains@.len() as int;
    let mut soon: Vec<EndingChain> = Vec::new();
    let mut later: Vec<EndingChain> = Vec::new();
    let mut parts: Vec<Amount> = Vec::new();
    let mut active = false;
    let mut i: usize = 0;
    proof {
        crate::amount::lemma_one();
        lemma_weight_take(amounts, 0);
    }
    while i < chains.len()
        invariant
            i <= chains.len(),
            amounts == chain_amounts(chains@),
            w == full_weight(amounts),
            w <= limit(),
            one() > 0,
            active == (exists|k: int| 0 <= k < i && (#[trigger] chains@[k]).remaining > 0),
            soon@ == releasing(chains@, i as int),
            later@ == ongoing(chains@, i as int),
            parts@ == monthly_parts(chains@, i as int),
            parts@.len() <= i,
            forall|k: int| 0 <= k < soon@.len() ==> (#[trigger] soon@[k]).at < i,
            forall|k: int| 0 <= k < later@.len() ==> (#[trigger] later@[k]).at < i,
            full_weight(parts@) <= full_weight(amounts.take(i as int)) + i * one(),
        decreases chains.len() - i,
    {
        let c = &chains[i];
        let ghost given = parts@;
        proof {
            assert(amounts[i as int] == c.total_amount);
            lemma_member_weight(amounts, i as int);
            assert(amounts.take(i + 1).drop_last() =~= amounts.take(i as int));
            assert((i + 1) * one() == i * one() + one()) by (nonlinear_arith);
        }
        if c.remaining > 0 {
            active = true;
            let part = if c.total > 0 {
                shared_by(&c.total_amount, c.total)
            } else {
                proof {
                    broadcast use crate::amount::lemma_made;

                    crate::amount::lemma_zero_scaled(zero());
                }
                Amount::none()
            };
            parts.push(part);
            assert(parts@.drop_last() =~= given);
        }
        if c.remaining > 0 && c.released_next_month {
            soon.push(EndingChain { at: i, end: c.projected_end });
        }
        if c.remaining > 1 && !c.released_next_month {
            later.push(EndingChain { at: i, end: c.projected_end });
        }
        i = i + 1;
    }
    if !active {
        push_text(&mut out, "Nenhuma parcela ativa encontrada.".to_string());
        assert(texts(out@) =~= installments_report(chains@));
        return out;
    }
    push_titled(&mut out, "🔔 *Liberam no próximo mês*", chains, &soon);
    let ghost before = later@;
    let later = sort(later);
    proof {
        lemma_list_bounds(before, later@, n);
        assert(amounts.take(n) =~= amounts);
    }
    push_titled(&mut out, "📅 *Em andamento*", chains, &later);
    let total = total_of_all(&parts);
    push_text(
        &mut out,
        glue("Compromisso mensal estimado: ", brl_abs(total.abs()).as_str()),
    );
    assert(texts(out@) =~= installments_report(chains@));
    out
}

/// The purchases that are still paid.
pub open spec fn active_chains(chains: Seq<InstallmentChain>, n: int) -> Seq<int>
    decreases n,
{
    if n <= 0 {
        Seq::empty()
    } else if chains[n - 1].remaining > 0 {
        active_chains(chains, n - 1).push(n - 1)
    } else {
        active_chains(chains, n - 1)
    }
}

/// Where the purchases stand that are still paid.
pub fn list_active_chains(chains: &Vec<InstallmentChain>) -> (r: Vec<usize>)
    ensures
        as_ints(r@) == active_chains(chains@, chains@.len() as int),
{
    let mut out: Vec<usize> = Vec::new();
    let mut i: usize = 0;
    assert(as_ints(out@) =~= active_chains(chains@, 0));
    while i < chains.len()
        invariant
            i <= chains.len(),
            as_ints(out@) == active_chains(chains@, i as int),
        decreases chains.len() - i,
    {
        let ghost before = as_ints(out@);
        if chains[i].remaining > 0 {
            out.push(i);
            assert(as_ints(out@) =~= before.push(i as int));
        }
        i = i + 1;
    }
    out
}

} // verus!
