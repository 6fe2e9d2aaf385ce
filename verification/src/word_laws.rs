//! What is read from words promises: which texts, categories and states count as what.

use crate::card_bills::{owner_agrees, owner_of};
use crate::cards::pays_bill;
use crate::cashflow::{
    arrives_on_card, category_key, inactive_status, income_category, pays_card,
};
use crate::categories::{query_text, searched_text};
use crate::date::two_digits;
use crate::description::{distance, marker_of, normalized, related, shared_words};
use crate::families::{key_parts, pair_key};
use crate::human::family_of;
use crate::listings::prefix_key;
use crate::metadata::{
    closing_before, closing_day_of, day_of_value, due_date_path, due_day_of, installment_signal,
    member, string_at, text_at, Json,
};
use crate::records::{
    marker_in, merchant_key, open_status, opt_text, raw_description_path, subscribes,
    AccountRecord, CardClosedTransactionRow, TransactionRecord,
};
use crate::review::{purchase_date_path, raw_date_path, raw_time, time_of};
use crate::sync::{category_ids, describes, named_categories, CategoryRecord};
use crate::text::{
    first_index, has_prefix, has_text, joined, lemma_first_index, lower, lower_ascii, occurs_at,
    replaced, split_at_char, trimmed, upper, words,
};
use vstd::prelude::*;

verus! {

/// Whether the words stand in the text, whatever the case of its ASCII letters.
pub open spec fn speaks_of(text: Seq<char>, word: Seq<char>) -> bool {
    exists|i: int|
        0 <= i && i + word.len() <= text.len() && lower_ascii(
            #[trigger] text.subrange(i, i + word.len()),
        ) == word
}

proof fn lemma_speaks(text: Seq<char>, word: Seq<char>)
    ensures
        speaks_of(text, word) <==> has_text(lower_ascii(text), word),
{
    let low = lower_ascii(text);
    if speaks_of(text, word) {
        let i = choose|i: int|
            0 <= i && i + word.len() <= text.len() && lower_ascii(
                #[trigger] text.subrange(i, i + word.len()),
            ) == word;
        assert(low.subrange(i, i + word.len()) =~= lower_ascii(
            text.subrange(i, i + word.len()),
        ));
        assert(occurs_at(low, word, i));
    }
    if has_text(low, word) {
        let i = choose|i: int| occurs_at(low, word, i);
        assert(low.subrange(i, i + word.len()) =~= lower_ascii(
            text.subrange(i, i + word.len()),
        ));
        assert(lower_ascii(text.subrange(i, i + word.len())) == word);
    }
}

proof fn lemma_speaks_in_whole(whole: Seq<char>, text: Seq<char>, at: int, word: Seq<char>)
    requires
        0 <= at,
        at + text.len() <= whole.len(),
        whole.subrange(at, at + text.len()) == text,
        speaks_of(text, word),
    ensures
        speaks_of(whole, word),
{
    let i = choose|i: int|
        0 <= i && i + word.len() <= text.len() && lower_ascii(
            #[trigger] text.subrange(i, i + word.len()),
        ) == word;
    assert(whole.subrange(at + i, at + i + word.len()) =~= text.subrange(i, i + word.len()));
    assert(lower_ascii(whole.subrange(at + i, at + i + word.len())) == word);
}

// ---------------------------------------------------------------------------
// Payments

/// Money that goes out pays a card where its category says so, or where its raw description
/// speaks of paying a bill or a card; money that does not go out never does.
pub proof fn law_card_payments(tx: TransactionRecord)
    ensures
        tx.amount.scaled() >= 0 ==> !pays_card(tx),
        tx.amount.scaled() < 0 && (speaks_of(tx.raw_description@, "pagamento de fatura"@)
            || speaks_of(tx.raw_description@, "pagamento cart"@) || speaks_of(
            tx.raw_description@,
            "pagamento de cart"@,
        ) || speaks_of(tx.raw_description@, "nubank pagamento"@)) ==> pays_card(tx),
        tx.amount.scaled() < 0 && tx.category_id is Some && (has_text(
            tx.category_id->0@,
            "credit-card-payment"@,
        ) || has_text(tx.category_id->0@, "pagamento-fatura"@)) ==> pays_card(tx),
        tx.amount.scaled() >= 0 ==> !pays_bill(tx),
        tx.amount.scaled() < 0 && tx.category_id is Some && (has_text(
            tx.category_id->0@,
            "credit-card-payment"@,
        ) || has_text(tx.category_id->0@, "pagamento-fatura"@)) ==> pays_bill(tx),
{
    let raw = tx.raw_description@;
    let all = raw + " "@ + crate::cashflow::or_nothing(tx.description) + " "@
        + crate::cashflow::or_nothing(tx.merchant_name);
    assert(all.subrange(0, raw.len() as int) =~= raw);
    let list = seq![
        "pagamento de fatura"@,
        "pagamento cart"@,
        "pagamento de cart"@,
        "nubank pagamento"@,
    ];
    assert forall|k: int| 0 <= k < 4 && speaks_of(raw, #[trigger] list[k]) implies has_text(
        lower_ascii(all),
        list[k],
    ) by {
        lemma_speaks_in_whole(all, raw, 0, list[k]);
        lemma_speaks(all, list[k]);
    }
    assert(list[0] == "pagamento de fatura"@ && list[1] == "pagamento cart"@);
    assert(list[2] == "pagamento de cart"@ && list[3] == "nubank pagamento"@);
}

/// An expense that no category and no word calls a payment is none.
pub proof fn law_no_card_payment(tx: TransactionRecord)
    requires
        tx.description is None,
        tx.merchant_name is None,
        tx.category_id is None,
        pays_card(tx),
    ensures
        exists|word: Seq<char>|
            {
                &&& #[trigger] speaks_of(
                    tx.raw_description@ + " "@ + ""@ + " "@ + ""@,
                    word,
                )
                &&& word == "pagamento de fatura"@ || word == "pagamento cart"@ || word
                    == "pagamento de cart"@ || word == "nubank pagamento"@
            },
{
    let all = tx.raw_description@ + " "@ + ""@ + " "@ + ""@;
    lemma_speaks(all, "pagamento de fatura"@);
    lemma_speaks(all, "pagamento cart"@);
    lemma_speaks(all, "pagamento de cart"@);
    lemma_speaks(all, "nubank pagamento"@);
}

/// A payment arrives on a card where money comes in and the description speaks of a payment
/// received, and only there.
pub proof fn law_arriving_payments(tx: TransactionRecord)
    ensures
        arrives_on_card(tx) <==> tx.amount.scaled() > 0 && speaks_of(
            tx.raw_description@,
            "pagamento recebido"@,
        ),
{
    lemma_speaks(tx.raw_description@, "pagamento recebido"@);
}

/// A payment may come from the owner of a bill unless both owners are known and differ; one
/// without an account only where the bill's owner is not known.
pub proof fn law_owner_agrees(
    payment: TransactionRecord,
    bill_owner: Seq<char>,
    accounts: Seq<AccountRecord>,
)
    ensures
        payment.account_id is None ==> (owner_agrees(payment, bill_owner, accounts) <==> bill_owner
            == Seq::<char>::empty()),
        payment.account_id matches Some(a) ==> (!owner_agrees(payment, bill_owner, accounts)
            <==> bill_owner.len() > 0 && owner_of(accounts, a@).len() > 0 && bill_owner
            != owner_of(accounts, a@)),
{
    if bill_owner.len() == 0 {
        assert(bill_owner =~= Seq::<char>::empty());
    }
}

// ---------------------------------------------------------------------------
// States and categories

/// A plan counts no more exactly where its state says in any case, and with any margins,
/// that it was cancelled, deleted or made inactive.
pub proof fn law_inactive_states(status: Seq<char>)
    ensures
        inactive_status(status) <==> {
            let s = lower_ascii(trimmed(status));
            s == "cancelled"@ || s == "canceled"@ || s == "inactive"@ || s == "deleted"@
        },
        trimmed(status) == "Canceled"@ ==> inactive_status(status),
        trimmed(status).len() == 0 ==> !inactive_status(status),
{
    reveal_strlit("cancelled");
    reveal_strlit("canceled");
    reveal_strlit("inactive");
    reveal_strlit("deleted");
    reveal_strlit("Canceled");
    assert(lower_ascii("Canceled"@) =~= "canceled"@);
    assert("cancelled"@.len() == 9 && "inactive"@.len() == 8 && "deleted"@.len() == 7);
    assert(lower_ascii(trimmed(status)).len() == trimmed(status).len());
}

/// A purchase counts toward the open bill exactly by the five names of that state.
pub proof fn law_open_states(status: Seq<char>)
    ensures
        open_status(status) <==> {
            let s = lower_ascii(trimmed(status));
            s == "pending"@ || s == "em_aberto"@ || s == "parcial"@ || s == "confirmed"@ || s
                == "unconfirmed"@
        },
        trimmed(status).len() == 0 ==> !open_status(status),
{
    reveal_strlit("pending");
    reveal_strlit("em_aberto");
    reveal_strlit("parcial");
    reveal_strlit("confirmed");
    reveal_strlit("unconfirmed");
    assert("pending"@.len() == 7 && "em_aberto"@.len() == 9 && "parcial"@.len() == 7);
    assert("confirmed"@.len() == 9 && "unconfirmed"@.len() == 11);
    assert(lower_ascii(trimmed(status)).len() == trimmed(status).len());
}

/// A category is one of income where its family is, or where it speaks of income in one of
/// the three words; nothing without a category is.
pub proof fn law_income_categories(id: Option<String>)
    ensures
        id is None ==> !income_category(id),
        id matches Some(c) ==> (income_category(id) <==> family_of(c@) == Some("receitas"@)
            || family_of(c@) == Some("salario"@) || speaks_of(c@, "receita"@) || speaks_of(
            c@,
            "income"@,
        ) || speaks_of(c@, "salary"@)),
{
    if let Some(c) = id {
        lemma_speaks(c@, "receita"@);
        lemma_speaks(c@, "income"@);
        lemma_speaks(c@, "salary"@);
    }
}

/// A purchase is a subscription by its category, or where its texts speak of one.
pub proof fn law_subscriptions(category: Option<String>, label: Seq<char>, description: Seq<char>)
    ensures
        category is Some && has_prefix(category->0@, "assinaturas"@) ==> subscribes(
            category,
            label,
            description,
        ),
        speaks_of(label, "assinatura"@) || speaks_of(label, "subscription"@) || speaks_of(
            label,
            "mensalidade"@,
        ) || speaks_of(label, "anuidade"@) ==> subscribes(category, label, description),
        speaks_of(description, "assinatura"@) || speaks_of(description, "subscription"@)
            || speaks_of(description, "mensalidade"@) || speaks_of(description, "anuidade"@)
            ==> subscribes(category, label, description),
{
    let all = label + " "@ + description;
    assert(all.subrange(0, label.len() as int) =~= label);
    let at = label.len() as int + " "@.len();
    assert(all.subrange(at, at + description.len()) =~= description);
    let list = seq!["assinatura"@, "subscription"@, "mensalidade"@, "anuidade"@];
    assert forall|k: int|
        0 <= k < 4 && (speaks_of(label, #[trigger] list[k]) || speaks_of(
            description,
            list[k],
        )) implies has_text(lower_ascii(all), list[k]) by {
        if speaks_of(label, list[k]) {
            lemma_speaks_in_whole(all, label, 0, list[k]);
        } else {
            lemma_speaks_in_whole(all, description, at, list[k]);
        }
        lemma_speaks(all, list[k]);
    }
    assert(list[0] == "assinatura"@ && list[1] == "subscription"@);
    assert(list[2] == "mensalidade"@ && list[3] == "anuidade"@);
}

/// A row is grouped under its category as it is written; a blank one or none is grouped
/// apart.
pub proof fn law_category_key(id: Option<String>)
    ensures
        id is None ==> category_key(id) == "sem-categoria"@,
        id matches Some(c) ==> category_key(id) == (if trimmed(c@).len() == 0 {
            "sem-categoria"@
        } else {
            c@
        }),
{
}

/// A category with a colon is told by its family and what stands behind the first colon;
/// the two come out of the key again.
pub proof fn law_pair_key(family: Seq<char>, sub: Seq<char>)
    requires
        !family.contains(':'),
        family.len() > 0,
        !crate::text::white_space(family[0]),
    ensures
        pair_key(family + seq![':'] + sub) == family + seq![':'] + sub,
        key_parts(family + seq![':'] + sub) == (family, sub),
        pair_key(family) == family + ":"@ + "geral"@,
{
    reveal_strlit(":");
    crate::statement_laws::law_family_stands_before_colon(family, sub);
    let s = family + seq![':'] + sub;
    assert forall|j: int| 0 <= j < family.len() implies s[j] != ':' by {
        assert(s[j] == family[j]);
        assert(family.contains(family[j]));
    }
    assert(s[family.len() as int] == ':');
    crate::text::lemma_first_index_unique(s, ':', family.len() as int);
    assert(s.take(family.len() as int) =~= family);
    assert(s.skip(family.len() as int + 1) =~= sub);
    assert(pair_key(s) =~= s);
    assert forall|j: int| 0 <= j < family.len() implies family[j] != ':' by {
        assert(family.contains(family[j]));
    }
    crate::text::lemma_first_index_unique(family, ':', family.len() as int);
}

/// The record of a category names it in words, and its parent where it has one.
pub proof fn law_category_record(
    r: CategoryRecord,
    parent: Seq<char>,
    child: Seq<char>,
    actor: Seq<char>,
)
    requires
        !parent.contains(':'),
        describes(r, parent + seq![':'] + child, actor),
    ensures
        r.category_id@ == parent + seq![':'] + child,
        opt_text(r.parent_category_id) == Some(parent),
        r.name@ == replaced(child, '-', seq![' ']),
        !child.contains('-') ==> r.name@ == child,
        r.actor_id@ == actor,
{
    let s = parent + seq![':'] + child;
    assert forall|j: int| 0 <= j < parent.len() implies s[j] != ':' by {
        assert(s[j] == parent[j]);
        assert(parent.contains(parent[j]));
    }
    assert(s[parent.len() as int] == ':');
    crate::text::lemma_first_index_unique(s, ':', parent.len() as int);
    assert(s.take(parent.len() as int) =~= parent);
    assert(s.skip(parent.len() as int + 1) =~= child);
    crate::text_laws::law_replaced(child, Seq::empty(), '-', seq![' ']);
}

/// The categories that transactions name are theirs and the families of these.
pub proof fn law_named_categories(rows: Seq<TransactionRecord>, id: Seq<char>)
    ensures
        named_categories(rows).contains(id) <==> exists|i: int|
            {
                &&& 0 <= i < rows.len()
                &&& (#[trigger] rows[i]).category_id matches Some(c) && (c@ == id || (c@.contains(
                    ':',
                ) && c@.take(first_index(c@, ':')) == id))
            },
    decreases rows.len(),
{
    if rows.len() > 0 {
        let t = rows.drop_last();
        let last = rows.len() - 1;
        law_named_categories(t, id);
        assert(rows[last] == rows.last());
        if let Some(c) = rows.last().category_id {
            lemma_first_index(c@, ':');
            let more = category_ids(c@);
            if first_index(c@, ':') < c@.len() {
                assert(c@.contains(c@[first_index(c@, ':')]));
                assert(more[0] == c@.take(first_index(c@, ':')) && more[1] == c@);
            } else {
                assert(more[0] == c@);
                assert(!c@.contains(':')) by {
                    if c@.contains(':') {
                        let k = choose|k: int| 0 <= k < c@.len() && c@[k] == ':';
                        assert(c@[k] != ':');
                    }
                }
            }
            lemma_contains_joined(named_categories(t), more, id);
            assert(more.contains(id) <==> c@ == id || (c@.contains(':') && c@.take(
                first_index(c@, ':'),
            ) == id)) by {
                if more.contains(id) {
                    let k = choose|k: int| 0 <= k < more.len() && more[k] == id;
                    assert(k == 0 || k == 1);
                }
            }
        }
        if named_categories(t).contains(id) {
            let i = choose|i: int|
                {
                    &&& 0 <= i < t.len()
                    &&& (#[trigger] t[i]).category_id matches Some(c) && (c@ == id || (c@.contains(
                        ':',
                    ) && c@.take(first_index(c@, ':')) == id))
                };
            assert(rows[i] == t[i]);
        }
        if exists|i: int|
            {
                &&& 0 <= i < rows.len()
                &&& (#[trigger] rows[i]).category_id matches Some(c) && (c@ == id || (c@.contains(
                    ':',
                ) && c@.take(first_index(c@, ':')) == id))
            } {
            let i = choose|i: int|
                {
                    &&& 0 <= i < rows.len()
                    &&& (#[trigger] rows[i]).category_id matches Some(c) && (c@ == id || (
                    c@.contains(':') && c@.take(first_index(c@, ':')) == id))
                };
            if i < last {
                assert(t[i] == rows[i]);
            }
        }
    } else {
        assert(!named_categories(rows).contains(id));
    }
}

proof fn lemma_contains_joined(a: Seq<Seq<char>>, b: Seq<Seq<char>>, x: Seq<char>)
    ensures
        (a + b).contains(x) <==> a.contains(x) || b.contains(x),
{
    let s = a + b;
    if a.contains(x) {
        let k = choose|k: int| 0 <= k < a.len() && a[k] == x;
        assert(s[k] == x);
    }
    if b.contains(x) {
        let k = choose|k: int| 0 <= k < b.len() && b[k] == x;
        assert(s[a.len() + k] == x);
    }
    if s.contains(x) {
        let k = choose|k: int| 0 <= k < s.len() && s[k] == x;
        if k < a.len() {
            assert(a[k] == x);
        } else {
            assert(b[k - a.len()] == x);
        }
    }
}

// ---------------------------------------------------------------------------
// Descriptions

/// How far apart two descriptions are by their normal forms: not at all where these are the
/// same, hardly where one holds the other, and else the less the more words of three
/// characters they share; one without a normal form is as far as can be.
pub proof fn law_distance(left: Seq<char>, right: Seq<char>)
    requires
        normalized(left).len() > 0,
        normalized(right).len() > 0,
    ensures
        distance(left, right) == 0 <==> normalized(left) == normalized(right),
        distance(left, right) <= 1 <==> has_text(normalized(left), normalized(right)) || has_text(
            normalized(right),
            normalized(left),
        ) || normalized(left) == normalized(right),
        distance(left, right) > 1 ==> distance(left, right) == (if shared_words(
            normalized(left),
            normalized(right),
            3,
        ) >= 3 {
            2int
        } else if shared_words(normalized(left), normalized(right), 3) == 2 {
            3
        } else if shared_words(normalized(left), normalized(right), 3) == 1 {
            6
        } else {
            10
        }),
{
}

/// Descriptions are related only where both say something, and then wherever one holds the
/// other, both bear the same installment, or they share two words of four characters.
pub proof fn law_related(left: Seq<char>, right: Seq<char>)
    ensures
        related(left, right) ==> normalized(left).len() > 0 && normalized(right).len() > 0,
        normalized(left).len() > 0 && normalized(right).len() > 0 && (distance(left, right) <= 1
            || (marker_of(left) is Some && marker_of(left) == marker_of(right)) || shared_words(
            normalized(left),
            normalized(right),
            4,
        ) >= 2) ==> related(left, right),
        related(left, right) && marker_of(left) != marker_of(right) && distance(left, right) > 1
            ==> shared_words(normalized(left), normalized(right), 4) >= 2,
{
}

/// The installment that a purchase bears is that of its label; else that of its
/// description; else that of the raw description in its metadata; else the metadata's own
/// word for one.
pub proof fn law_marker_comes_from(label: Seq<char>, description: Seq<char>, metadata: Json)
    ensures
        marker_of(label) is Some ==> marker_in(label, description, metadata) == marker_of(label),
        marker_of(label) is None && marker_of(description) is Some ==> marker_in(
            label,
            description,
            metadata,
        ) == marker_of(description),
        marker_of(label) is None && marker_of(description) is None && string_at(
            metadata,
            raw_description_path(),
        ) is None ==> (marker_in(label, description, metadata) is Some <==> installment_signal(
            metadata,
        )),
{
}

/// Purchases meet at a merchant by the label, or by the description where the label is
/// blank; they never meet under an empty key.
pub proof fn law_merchant_key(a: CardClosedTransactionRow, b: CardClosedTransactionRow)
    ensures
        trimmed(a.label@).len() > 0 && a.label@ == b.label@ ==> merchant_key(a) == merchant_key(b),
        trimmed(a.label@).len() == 0 && trimmed(b.label@).len() == 0 && a.description@
            == b.description@ ==> merchant_key(a) == merchant_key(b),
        merchant_key(a).len() > 0,
{
    reveal_strlit("sem-chave");
}

/// Rows without a category meet where their first three words are the same, whatever the
/// case of their ASCII letters and whatever follows.
pub proof fn law_prefix_key(a: Seq<char>, b: Seq<char>)
    requires
        words(a).len() >= 3,
        words(b).len() >= 3,
        words(a).take(3) == words(b).take(3),
    ensures
        prefix_key(a) == prefix_key(b),
        prefix_key(a) == joined(words(a).take(3), seq![' ']).map_values(|c: char| upper(c)),
{
    if words(a).len() == 3 {
        assert(words(a).take(3) =~= words(a));
    }
    if words(b).len() == 3 {
        assert(words(b).take(3) =~= words(b));
    }
}

/// A query is searched without its margins, in small letters, with hyphens for spaces and
/// colons; a category is searched with spaces for colons and hyphens.
pub proof fn law_query_text(s: Seq<char>, category: Seq<char>, i: int)
    requires
        0 <= i < query_text(s).len(),
    ensures
        query_text(s).len() == trimmed(s).len(),
        query_text(s)[i] != ' ' && query_text(s)[i] != ':',
        trimmed(s)[i] != ' ' && trimmed(s)[i] != ':' ==> query_text(s)[i] == lower(trimmed(s)[i]),
        trimmed(s)[i] == ' ' || trimmed(s)[i] == ':' ==> query_text(s)[i] == '-',
        !searched_text(category).contains(':') && !searched_text(category).contains('-'),
        searched_text(category).len() == category.len(),
{
    let t = searched_text(category);
    if t.contains(':') {
        let k = choose|k: int| 0 <= k < t.len() && t[k] == ':';
    }
    if t.contains('-') {
        let k = choose|k: int| 0 <= k < t.len() && t[k] == '-';
    }
}

// ---------------------------------------------------------------------------
// Settings and times

/// A configured day wins over one that is derived: the due day over that of the due date,
/// the closing day over a week before the due day.
pub proof fn law_configured_days_win(metadata: Json)
    ensures
        day_of_value(member(metadata, "billing_due_day"@)) is Some ==> due_day_of(metadata)
            == day_of_value(member(metadata, "billing_due_day"@)),
        day_of_value(member(metadata, "billing_due_day"@)) is None && string_at(
            metadata,
            due_date_path(),
        ) is None ==> due_day_of(metadata) is None,
        day_of_value(member(metadata, "billing_closing_day"@)) is Some ==> closing_day_of(metadata)
            == day_of_value(member(metadata, "billing_closing_day"@)),
        day_of_value(member(metadata, "billing_closing_day"@)) is None && due_day_of(
            metadata,
        ) is Some ==> closing_day_of(metadata) == closing_before(due_day_of(metadata)->0 as int),
        day_of_value(member(metadata, "billing_closing_day"@)) is None && due_day_of(
            metadata,
        ) is None ==> closing_day_of(metadata) is None,
{
}

/// The time of a transaction is that of its date in the feed, else that of the purchase.
pub proof fn law_time_comes_from(metadata: Json)
    ensures
        text_at(metadata, raw_date_path()) is Some ==> raw_time(metadata) == text_at(
            metadata,
            raw_date_path(),
        ),
        text_at(metadata, raw_date_path()) is None ==> raw_time(metadata) == text_at(
            metadata,
            purchase_date_path(),
        ),
{
}

/// The time of day is hour and minute where the text is a full time; else at most five
/// characters behind the `T` of it.
pub proof fn law_time_of_day(s: Seq<char>, h: u32, m: u32)
    ensures
        time_of(s, Some((h, m))) == two_digits(h as int) + seq![':'] + two_digits(m as int),
        split_at_char(s, 'T') is Some ==> time_of(s, None).len() <= 5 && has_prefix(
            s.skip(first_index(s, 'T') + 1),
            time_of(s, None),
        ),
{
    if split_at_char(s, 'T') is Some {
        let rest = s.skip(first_index(s, 'T') + 1);
        if rest.len() <= 5 {
            assert(rest.take(rest.len() as int) =~= rest);
        } else {
            assert(rest.take(5).len() == 5);
        }
    }
}

} // verus!
