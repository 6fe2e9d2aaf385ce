//! Upkeep of stored transactions: classifying them anew, and filling in their
//! anatomy from similar ones.

use crate::audit::{all_log, reclassify_entry, reclassify_logged, AuditEntry, Logged};
use crate::date::{iso, iso_text};
use crate::human::{truncate_with_ellipsis, truncated};
use crate::order::{as_ints, where_at};
use crate::records::{opt_clone, opt_text, same_option, TransactionRecord};
use crate::screen::{pad_end, padded_end};
use crate::text::{chars, digits, from_chars, glue, number, push_text, put, same, texts};
use vstd::prelude::*;

verus! {

// ---------------------------------------------------------------------------
// Texts in quotes

/// How `{:?}` writes a text: between double quotes, with what needs it escaped.
pub uninterp spec fn quoted_text(s: Seq<char>) -> Seq<char>;

/// `format!("{:?}", _)` on a `str`, which is its implementation of `Debug`. Nothing is
/// stated of which characters are escaped.
#[verifier::external_body]
pub(crate) fn quoted(s: &str) -> (r: String)
    ensures
        r@ == quoted_text(s@),
{
    format!("{:?}", s)
}

/// How an optional text is written: in quotes, or `None`.
pub open spec fn quoted_option(o: Option<String>) -> Seq<char> {
    match o {
        Some(s) => "Some("@ + quoted_text(s@) + ")"@,
        None => "None"@,
    }
}

/// How an optional text is written.
pub fn quote_option(o: &Option<String>) -> (r: String)
    ensures
        r@ == quoted_option(*o),
{
    match o {
        Some(s) => {
            let mut out = chars("Some(");
            put(&mut out, quoted(s.as_str()).as_str());
            put(&mut out, ")");
            from_chars(&out)
        },
        None => "None".to_string(),
    }
}

// ---------------------------------------------------------------------------
// Classifying anew

/// What the rules make of a transaction.
pub struct RuleOutcome {
    pub category_id: Option<String>,
    pub category_source: String,
    pub context: Option<String>,
}

/// Whether the rules change a transaction: a rule decided, and the category is another
/// one or there is a context to keep.
pub open spec fn reclassifies(item: TransactionRecord, outcome: RuleOutcome) -> bool {
    outcome.category_source@ == "rule"@ && (opt_text(outcome.category_id) != opt_text(
        item.category_id,
    ) || outcome.context is Some)
}

/// The transactions that the rules change, by position.
pub open spec fn reclassified(items: Seq<TransactionRecord>, outcomes: Seq<RuleOutcome>) -> Seq<
    int,
> {
    where_at(items.len() as int, |i: int| reclassifies(items[i], outcomes[i]))
}

/// What the audit trail says of the transactions that the rules change.
pub open spec fn reclassify_trail(
    items: Seq<TransactionRecord>,
    outcomes: Seq<RuleOutcome>,
    positions: Seq<int>,
) -> Seq<Logged> {
    positions.map_values(|i: int| reclassify_logged(items[i], outcomes[i]))
}

/// Which transactions the rules change, how many they leave, and the audit trail.
pub struct Reclassification {
    pub positions: Vec<usize>,
    pub changed: u64,
    pub unchanged: u64,
    pub audit: Vec<AuditEntry>,
}

/// Which transactions the rules change, given what the rules make of each. Where nothing
/// is stored the audit trail is empty.
pub fn plan_reclassification(
    items: &Vec<TransactionRecord>,
    outcomes: &Vec<RuleOutcome>,
    dry_run: bool,
) -> (r: Reclassification)
    requires
        items@.len() == outcomes@.len(),
    ensures
        as_ints(r.positions@) == reclassified(items@, outcomes@),
        r.changed == r.positions@.len(),
        r.changed + r.unchanged == items@.len(),
        dry_run ==> r.audit@.len() == 0,
        !dry_run ==> all_log(
            r.audit@,
            reclassify_trail(items@, outcomes@, reclassified(items@, outcomes@)),
        ),
{
    let mut audit: Vec<AuditEntry> = Vec::new();
    let mut positions: Vec<usize> = Vec::new();
    let mut changed: u64 = 0;
    let mut unchanged: u64 = 0;
    let ghost f = |i: int| reclassifies(items@[i], outcomes@[i]);
    let mut i: usize = 0;
    assert(as_ints(positions@) =~= where_at(0, f));
    while i < items.len()
        invariant
            i <= items.len(),
            items@.len() == outcomes@.len(),
            f == (|i: int| reclassifies(items@[i], outcomes@[i])),
            as_ints(positions@) == where_at(i as int, f),
            changed == positions@.len(),
            changed + unchanged == i,
            dry_run ==> audit@.len() == 0,
            !dry_run ==> all_log(
                audit@,
                reclassify_trail(items@, outcomes@, as_ints(positions@)),
            ),
        decreases items.len() - i,
    {
        let outcome = &outcomes[i];
        let by_rule = same(outcome.category_source.as_str(), "rule");
        let other = !same_option(&outcome.category_id, &items[i].category_id);
        let ghost before = as_ints(positions@);
        if by_rule && (other || outcome.context.is_some()) {
            assert(f(i as int));
            positions.push(i);
            changed = changed + 1;
            assert(as_ints(positions@) =~= before.push(i as int));
            if !dry_run {
                audit.push(reclassify_entry(&items[i], outcome));
            }
        } else {
            assert(!f(i as int));
            unchanged = unchanged + 1;
        }
        i = i + 1;
    }
    Reclassification { positions, changed, unchanged, audit }
}

pub open spec fn named_category(o: Option<String>) -> Seq<char> {
    match o {
        Some(s) => s@,
        None => "(nenhuma)"@,
    }
}

fn name_category(o: &Option<String>) -> (r: &str)
    ensures
        r@ == named_category(*o),
{
    match o {
        Some(s) => s.as_str(),
        None => "(nenhuma)",
    }
}

/// The line that announces a change without making it.
pub fn dry_run_line(item: &TransactionRecord, outcome: &RuleOutcome) -> (r: String)
    ensures
        r@ == "  [DRY-RUN] "@ + iso_text(item.transaction_date) + " "@ + padded_end(
            truncated(item.shown(), 50),
            50,
        ) + " "@ + padded_end(named_category(item.category_id), 30) + " -> "@ + named_category(
            outcome.category_id,
        ),
{
    let mut out = chars("  [DRY-RUN] ");
    put(&mut out, iso(&item.transaction_date).as_str());
    put(&mut out, " ");
    let label = truncate_with_ellipsis(item.display_description(), 50);
    put(&mut out, pad_end(label.as_str(), 50).as_str());
    put(&mut out, " ");
    put(&mut out, pad_end(name_category(&item.category_id), 30).as_str());
    put(&mut out, " -> ");
    put(&mut out, name_category(&outcome.category_id));
    from_chars(&out)
}

/// A change to be stored.
pub struct Annotation {
    pub transaction_id: String,
    pub category_id: Option<String>,
    pub category_source: String,
    pub context: Option<String>,
    pub idempotency_key: String,
}

/// The change to be stored for a transaction that the rules change.
pub fn reclassify_annotation(item: &TransactionRecord, outcome: &RuleOutcome) -> (r: Annotation)
    ensures
        r.transaction_id == item.transaction_id,
        r.category_id == outcome.category_id,
        r.category_source == outcome.category_source,
        r.context == outcome.context,
        r.idempotency_key@ == "reclassify:"@ + item.transaction_id@,
{
    Annotation {
        transaction_id: item.transaction_id.clone(),
        category_id: opt_clone(&outcome.category_id),
        category_source: outcome.category_source.clone(),
        context: opt_clone(&outcome.context),
        idempotency_key: glue("reclassify:", item.transaction_id.as_str()),
    }
}

/// What is told before the rules are applied.
pub fn reclassify_intro(items: u64, rules: u64) -> (r: Vec<String>)
    ensures
        texts(r@) == (if rules == 0 {
            seq![
                "Nenhuma regra ativa encontrada. Importe regras antes com `admin import-legacy`."@,
            ]
        } else {
            seq![
                "Transações encontradas: "@ + digits(items as nat),
                "Regras compiladas: "@ + digits(rules as nat),
            ]
        }),
{
    let mut out: Vec<String> = Vec::new();
    assert(texts(out@) =~= Seq::<Seq<char>>::empty());
    if rules == 0 {
        push_text(
            &mut out,
            "Nenhuma regra ativa encontrada. Importe regras antes com `admin import-legacy`.".to_string(),
        );
    } else {
        push_text(&mut out, glue("Transações encontradas: ", number(items).as_str()));
        push_text(&mut out, glue("Regras compiladas: ", number(rules).as_str()));
    }
    out
}

/// What is told after the rules were applied.
pub fn reclassify_summary(plan: &Reclassification, dry_run: bool) -> (r: Vec<String>)
    ensures
        texts(r@) == seq![
            "Reclassificação concluída"@ + (if dry_run {
                " (dry-run)"@
            } else {
                Seq::empty()
            }) + ":"@,
            "- alteradas: "@ + digits(plan.changed as nat),
            "- sem alteração: "@ + digits(plan.unchanged as nat),
        ],
{
    let mut out: Vec<String> = Vec::new();
    assert(texts(out@) =~= Seq::<Seq<char>>::empty());
    let mut head = chars("Reclassificação concluída");
    if dry_run {
        put(&mut head, " (dry-run)");
    } else {
        assert(head@ + Seq::<char>::empty() =~= head@);
    }
    put(&mut head, ":");
    push_text(&mut out, from_chars(&head));
    push_text(&mut out, glue("- alteradas: ", number(plan.changed).as_str()));
    push_text(&mut out, glue("- sem alteração: ", number(plan.unchanged).as_str()));
    out
}

/// Nothing is changed where no rule decided.
pub proof fn law_only_rules_reclassify(
    items: Seq<TransactionRecord>,
    outcomes: Seq<RuleOutcome>,
    k: int,
)
    requires
        items.len() == outcomes.len(),
        0 <= k < reclassified(items, outcomes).len(),
    ensures
        ({
            let i = reclassified(items, outcomes)[k];
            &&& 0 <= i < items.len()
            &&& outcomes[i].category_source@ == "rule"@
        }),
{
    let f = |i: int| reclassifies(items[i], outcomes[i]);
    crate::order::lemma_where_at(items.len() as int, f);
    assert(f(reclassified(items, outcomes)[k]));
}

// ---------------------------------------------------------------------------
// Filling in the anatomy

/// What a similar transaction has to give.
pub struct Replication {
    pub donor_id: String,
    pub description: Option<String>,
    pub purpose: Option<String>,
}

/// What came of the search for a similar transaction.
pub enum ReplicationOutcome {
    Replicated(Replication),
    NoDonor,
    NoMerchant,
    AlreadyComplete,
}

/// How often each outcome came.
pub struct ReplicationTally {
    pub replicated: usize,
    pub no_donor: usize,
    pub already_complete: usize,
    pub errors: usize,
}

/// How many outcomes are a given one.
pub open spec fn outcomes_like(
    outcomes: Seq<Result<ReplicationOutcome, String>>,
    like: spec_fn(Result<ReplicationOutcome, String>) -> bool,
) -> nat
    decreases outcomes.len(),
{
    if outcomes.len() == 0 {
        0
    } else {
        outcomes_like(outcomes.drop_last(), like) + (if like(outcomes.last()) {
            1nat
        } else {
            0nat
        })
    }
}

pub open spec fn was_replicated() -> spec_fn(Result<ReplicationOutcome, String>) -> bool {
    |o: Result<ReplicationOutcome, String>|
        o matches Ok(r) && r is Replicated
}

/// Whether there was nothing to replicate from, for want of a donor or of a merchant.
pub open spec fn found_no_donor() -> spec_fn(Result<ReplicationOutcome, String>) -> bool {
    |o: Result<ReplicationOutcome, String>|
        o matches Ok(r) && (r is NoDonor || r is NoMerchant)
}

pub open spec fn was_complete() -> spec_fn(Result<ReplicationOutcome, String>) -> bool {
    |o: Result<ReplicationOutcome, String>|
        o matches Ok(r) && r is AlreadyComplete
}

pub open spec fn has_failed() -> spec_fn(Result<ReplicationOutcome, String>) -> bool {
    |o: Result<ReplicationOutcome, String>| o is Err
}

impl ReplicationTally {
    /// Whether these are the counts of the outcomes.
    pub open spec fn counts(self, outcomes: Seq<Result<ReplicationOutcome, String>>) -> bool {
        &&& self.replicated == outcomes_like(outcomes, was_replicated())
        &&& self.no_donor == outcomes_like(outcomes, found_no_donor())
        &&& self.already_complete == outcomes_like(outcomes, was_complete())
        &&& self.errors == outcomes_like(outcomes, has_failed())
    }
}

proof fn lemma_few_outcomes(
    outcomes: Seq<Result<ReplicationOutcome, String>>,
    like: spec_fn(Result<ReplicationOutcome, String>) -> bool,
)
    ensures
        outcomes_like(outcomes, like) <= outcomes.len(),
    decreases outcomes.len(),
{
    if outcomes.len() > 0 {
        lemma_few_outcomes(outcomes.drop_last(), like);
    }
}

/// How often each outcome came.
pub fn tally_replications(outcomes: &Vec<Result<ReplicationOutcome, String>>) -> (r: ReplicationTally)
    ensures
        r.counts(outcomes@),
{
    let mut tally = ReplicationTally {
        replicated: 0,
        no_donor: 0,
        already_complete: 0,
        errors: 0,
    };
    let mut i: usize = 0;
    while i < outcomes.len()
        invariant
            i <= outcomes.len(),
            tally.counts(outcomes@.take(i as int)),
        decreases outcomes.len() - i,
    {
        proof {
            let seen = outcomes@.take(i as int);
            assert(outcomes@.take(i + 1).drop_last() =~= seen);
            lemma_few_outcomes(seen, was_replicated());
            lemma_few_outcomes(seen, found_no_donor());
            lemma_few_outcomes(seen, was_complete());
            lemma_few_outcomes(seen, has_failed());
        }
        match &outcomes[i] {
            Ok(ReplicationOutcome::Replicated(_)) => {
                tally.replicated = tally.replicated + 1;
            },
            Ok(ReplicationOutcome::NoDonor) => {
                tally.no_donor = tally.no_donor + 1;
            },
            Ok(ReplicationOutcome::NoMerchant) => {
                tally.no_donor = tally.no_donor + 1;
            },
            Ok(ReplicationOutcome::AlreadyComplete) => {
                tally.already_complete = tally.already_complete + 1;
            },
            Err(_) => {
                tally.errors = tally.errors + 1;
            },
        }
        i = i + 1;
    }
    assert(outcomes@.take(i as int) =~= outcomes@);
    tally
}

/// Each outcome is counted once: the four counts together are the number of outcomes.
pub proof fn law_outcomes_counted_once(outcomes: Seq<Result<ReplicationOutcome, String>>)
    ensures
        outcomes_like(outcomes, was_replicated()) + outcomes_like(outcomes, found_no_donor())
            + outcomes_like(outcomes, was_complete()) + outcomes_like(outcomes, has_failed())
            == outcomes.len(),
    decreases outcomes.len(),
{
    if outcomes.len() > 0 {
        law_outcomes_counted_once(outcomes.drop_last());
    }
}

pub open spec fn replicated_part(name: Seq<char>, value: Option<String>) -> Seq<char> {
    match value {
        Some(v) => name + quoted_text(v@),
        None => Seq::empty(),
    }
}

fn put_part(out: &mut Vec<char>, name: &str, value: &Option<String>)
    ensures
        final(out)@ == old(out)@ + replicated_part(name@, *value),
{
    let ghost start = out@;
    match value {
        Some(v) => {
            put(out, name);
            put(out, quoted(v.as_str()).as_str());
        },
        None => {},
    }
    assert(out@ =~= start + replicated_part(name@, *value));
}

/// The line that tells what a transaction takes from another.
pub fn replication_line(tx: &TransactionRecord, rep: &Replication) -> (r: String)
    ensures
        r@ == "  replicate  "@ + tx.transaction_id@ + "  ←  "@ + rep.donor_id@ + replicated_part(
            "  desc="@,
            rep.description,
        ) + replicated_part("  purpose="@, rep.purpose),
{
    let mut out = chars("  replicate  ");
    put(&mut out, tx.transaction_id.as_str());
    put(&mut out, "  ←  ");
    put(&mut out, rep.donor_id.as_str());
    put_part(&mut out, "  desc=", &rep.description);
    put_part(&mut out, "  purpose=", &rep.purpose);
    from_chars(&out)
}

/// The warning where the search for a similar transaction failed.
pub fn replication_warning(tx: &TransactionRecord, error: &str) -> (r: String)
    ensures
        r@ == "aviso: replicação falhou para "@ + tx.transaction_id@ + " ("@
            + tx.raw_description@ + "): "@ + error@,
{
    let mut out = chars("aviso: replicação falhou para ");
    put(&mut out, tx.transaction_id.as_str());
    put(&mut out, " (");
    put(&mut out, tx.raw_description.as_str());
    put(&mut out, "): ");
    put(&mut out, error);
    from_chars(&out)
}

/// The key of a replication, with a fresh suffix.
pub fn replication_key(tx: &TransactionRecord, suffix: &str) -> (r: String)
    ensures
        r@ == "anatomy_rep:"@ + tx.transaction_id@ + ":"@ + suffix@,
{
    let mut out = chars("anatomy_rep:");
    put(&mut out, tx.transaction_id.as_str());
    put(&mut out, ":");
    put(&mut out, suffix);
    from_chars(&out)
}

/// What is told at the end: an empty line, then the counts.
pub fn replication_summary(tally: &ReplicationTally, total: usize, dry_run: bool) -> (r: Vec<String>)
    ensures
        texts(r@) == seq![
            ""@,
            "Total: "@ + digits(total as nat) + "  replicado: "@ + digits(tally.replicated as nat)
                + "  sem donor: "@ + digits(tally.no_donor as nat) + "  já completo: "@ + digits(
                tally.already_complete as nat,
            ) + "  erros: "@ + digits(tally.errors as nat) + (if dry_run {
                "  (dry-run — nenhuma alteração gravada)"@
            } else {
                Seq::empty()
            }),
        ],
{
    let mut line = chars("Total: ");
    put(&mut line, number(total as u64).as_str());
    put(&mut line, "  replicado: ");
    put(&mut line, number(tally.replicated as u64).as_str());
    put(&mut line, "  sem donor: ");
    put(&mut line, number(tally.no_donor as u64).as_str());
    put(&mut line, "  já completo: ");
    put(&mut line, number(tally.already_complete as u64).as_str());
    put(&mut line, "  erros: ");
    put(&mut line, number(tally.errors as u64).as_str());
    if dry_run {
        put(&mut line, "  (dry-run — nenhuma alteração gravada)");
    } else {
        assert(line@ + Seq::<char>::empty() =~= line@);
    }
    let mut out: Vec<String> = Vec::new();
    assert(texts(out@) =~= Seq::<Seq<char>>::empty());
    push_text(&mut out, "".to_string());
    push_text(&mut out, from_chars(&line));
    out
}

// ---------------------------------------------------------------------------
// Imports

/// How many rows of each kind an import stored.
pub struct ImportCounts {
    pub accounts: usize,
    pub categories: usize,
    pub rules: usize,
    pub forecasts: usize,
    pub transactions: usize,
}

/// What is told at the end of an import.
pub fn import_summary(counts: &ImportCounts) -> (r: Vec<String>)
    ensures
        texts(r@) == seq![
            "Import legado concluído:"@,
            "- accounts: "@ + digits(counts.accounts as nat),
            "- categories: "@ + digits(counts.categories as nat),
            "- rules: "@ + digits(counts.rules as nat),
            "- forecasts: "@ + digits(counts.forecasts as nat),
            "- transactions: "@ + digits(counts.transactions as nat),
        ],
{
    let mut out: Vec<String> = Vec::new();
    assert(texts(out@) =~= Seq::<Seq<char>>::empty());
    push_text(&mut out, "Import legado concluído:".to_string());
    push_text(&mut out, glue("- accounts: ", number(counts.accounts as u64).as_str()));
    push_text(&mut out, glue("- categories: ", number(counts.categories as u64).as_str()));
    push_text(&mut out, glue("- rules: ", number(counts.rules as u64).as_str()));
    push_text(&mut out, glue("- forecasts: ", number(counts.forecasts as u64).as_str()));
    push_text(&mut out, glue("- transactions: ", number(counts.transactions as u64).as_str()));
    out
}

/// What is told of the changes of the store's layout.
pub open spec fn migrations_text(versions: Seq<Seq<char>>) -> Seq<Seq<char>> {
    if versions.len() == 0 {
        seq!["Nenhuma migration pendente."@]
    } else {
        seq!["Migrations aplicadas:"@] + versions.map_values(|v: Seq<char>| "- "@ + v)
    }
}

/// What is told of the changes of the store's layout.
pub fn tell_migrations(versions: &Vec<String>) -> (r: Vec<String>)
    ensures
        texts(r@) == migrations_text(texts(versions@)),
{
    let mut out: Vec<String> = Vec::new();
    assert(texts(out@) =~= Seq::<Seq<char>>::empty());
    if versions.len() == 0 {
        push_text(&mut out, "Nenhuma migration pendente.".to_string());
        assert(texts(out@) =~= migrations_text(texts(versions@)));
        return out;
    }
    push_text(&mut out, "Migrations aplicadas:".to_string());
    let ghost head = texts(out@);
    let ghost want = texts(versions@).map_values(|v: Seq<char>| "- "@ + v);
    let mut i: usize = 0;
    assert(head + want.take(0) =~= head);
    while i < versions.len()
        invariant
            i <= versions.len(),
            want == texts(versions@).map_values(|v: Seq<char>| "- "@ + v),
            texts(out@) == head + want.take(i as int),
        decreases versions.len() - i,
    {
        push_text(&mut out, glue("- ", versions[i].as_str()));
        i = i + 1;
        assert(texts(out@) =~= head + want.take(i as int));
    }
    assert(want.take(i as int) =~= want);
    out
}

} // verus!
