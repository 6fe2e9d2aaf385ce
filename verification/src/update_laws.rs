//! What versions and signatures promise.

use crate::text::{
    digits, has_prefix, lemma_digits, lemma_digits_value, lemma_precedes_asymmetric,
    lemma_precedes_irreflexive, parts_of, precedes,
};
use crate::update::{
    asset_at, newer, parsed_version, step_for, update_available, version_of_tag, without_prefix,
    GitHubAsset, SignatureStep,
};
use vstd::prelude::*;

verus! {

/// A version with the higher first number is newer, whatever stands behind; with the same
/// first number the second decides, then the third; with the same three a release is newer
/// than a mark, and of two marks the one that sorts behind.
pub proof fn law_higher_number_is_newer(
    a: (u64, u64, u64, Option<Seq<char>>),
    b: (u64, u64, u64, Option<Seq<char>>),
)
    ensures
        a.0 > b.0 ==> newer(a, b),
        a.0 == b.0 && a.1 > b.1 ==> newer(a, b),
        a.0 == b.0 && a.1 == b.1 && a.2 > b.2 ==> newer(a, b),
        a.0 == b.0 && a.1 == b.1 && a.2 == b.2 && a.3 is None && b.3 is Some ==> newer(a, b),
        a.0 == b.0 && a.1 == b.1 && a.2 == b.2 && a.3 is Some && b.3 is Some && precedes(
            b.3->0,
            a.3->0,
        ) ==> newer(a, b),
{
}

/// The tag of a release names its version, with the component's name and the letter before
/// it or without them.
pub proof fn law_tag_names_version(v: Seq<char>)
    requires
        v.len() > 0,
        crate::text::ascii_digit(v[0]),
    ensures
        version_of_tag(v) == v,
        version_of_tag("v"@ + v) == v,
        version_of_tag("finance-cli-v"@ + v) == v,
        version_of_tag("finance-cli-"@ + v) == v,
{
    reveal_strlit("v");
    reveal_strlit("V");
    reveal_strlit("finance-cli-");
    reveal_strlit("finance-cli-v");
    let (name, small) = ("finance-cli-"@, "v"@);
    lemma_stays(v, name);
    lemma_stays(v, small);
    lemma_stays(v, "V"@);
    let w = small + v;
    lemma_stays(w, name);
    lemma_taken(v, small);
    let full = name + w;
    assert("finance-cli-v"@ + v =~= full);
    lemma_taken(w, name);
    lemma_taken(v, name);
}

/// A text that does not begin as the prefix does stays.
proof fn lemma_stays(s: Seq<char>, p: Seq<char>)
    requires
        s.len() > 0,
        p.len() > 0,
        s[0] != p[0],
    ensures
        without_prefix(s, p) == s,
{
    if has_prefix(s, p) {
        assert(s.take(p.len() as int)[0] == s[0]);
    }
}

proof fn lemma_taken(s: Seq<char>, p: Seq<char>)
    requires
        s.len() > 0,
        p.len() > 0,
        s[0] != p[0],
    ensures
        without_prefix(p + s, p) == s,
{
    lemma_stays(s, p);
    assert((p + s).take(p.len() as int) =~= p);
    assert((p + s).skip(p.len() as int) =~= s);
}

/// Whether a signature is needed and how it is used: none where that is switched off, the
/// present one else; a missing one is refused only where it is required.
pub proof fn law_signature_step(has_signature: bool, required: bool)
    ensures
        step_for(true, has_signature, required) == SignatureStep::Skip,
        has_signature ==> step_for(false, has_signature, required) == SignatureStep::Verify,
        !has_signature && required ==> step_for(false, has_signature, required)
            == SignatureStep::Refuse,
        !has_signature && !required ==> step_for(false, has_signature, required)
            == SignatureStep::ChecksumOnly,
{
}

/// A version written as three numbers with points between them is read as these numbers.
pub proof fn law_version_is_read_back(a: u64, b: u64, c: u64)
    ensures
        parsed_version(
            digits(a as nat) + seq!['.'] + digits(b as nat) + seq!['.'] + digits(c as nat),
        ) == Some((a, b, c, None::<Seq<char>>)),
{
    let (x, y, z) = (digits(a as nat), digits(b as nat), digits(c as nat));
    let s = x + seq!['.'] + y + seq!['.'] + z;
    lemma_digits(a as nat);
    lemma_digits(b as nat);
    lemma_digits(c as nat);
    lemma_digits_value(a as nat);
    lemma_digits_value(b as nat);
    lemma_digits_value(c as nat);
    lemma_plain_trimmed(s);
    assert forall|j: int| 0 <= j < s.len() implies s[j] != '-' by {}
    crate::text::lemma_first_index_unique(s, '-', s.len() as int);
    lemma_split(x, y + seq!['.'] + z);
    assert(x + seq!['.'] + (y + seq!['.'] + z) =~= s);
    lemma_split(y, z);
    assert forall|j: int| 0 <= j < z.len() implies z[j] != '.' by {}
    crate::text::lemma_first_index_unique(z, '.', z.len() as int);
    assert(parts_of(z, '.') == seq![z]);
    assert(parts_of(s, '.') =~= seq![x, y, z]);
    assert(x[0] != '+' && y[0] != '+' && z[0] != '+');
}

proof fn lemma_split(x: Seq<char>, r: Seq<char>)
    requires
        crate::text::all_digits(x),
    ensures
        parts_of(x + seq!['.'] + r, '.') == seq![x] + parts_of(r, '.'),
{
    let s = x + seq!['.'] + r;
    assert(s[x.len() as int] == '.');
    assert forall|j: int| 0 <= j < x.len() implies s[j] != '.' by {
        assert(s[j] == x[j]);
    }
    crate::text::lemma_first_index_unique(s, '.', x.len() as int);
    assert(s.take(x.len() as int) =~= x);
    assert(s.skip(x.len() as int + 1) =~= r);
}

/// A text without white space at its ends is not trimmed.
proof fn lemma_plain_trimmed(s: Seq<char>)
    requires
        s.len() > 0,
        !crate::text::white_space(s[0]),
        !crate::text::white_space(s.last()),
    ensures
        crate::text::trimmed(s) == s,
{
}

/// The asset found is the first with the name, and there is none only where no asset has it.
pub proof fn law_first_asset(assets: Seq<GitHubAsset>, name: Seq<char>, from: int)
    requires
        0 <= from <= assets.len(),
    ensures
        match asset_at(assets, name, from) {
            Some(k) => from <= k < assets.len() && assets[k].name@ == name && forall|i: int|
                from <= i < k ==> (#[trigger] assets[i]).name@ != name,
            None => forall|i: int|
                from <= i < assets.len() ==> (#[trigger] assets[i]).name@ != name,
        },
    decreases assets.len() - from,
{
    if from < assets.len() && assets[from].name@ != name {
        law_first_asset(assets, name, from + 1);
    }
}

/// A latest version with a higher first number is an update of the current one, and the
/// current one none of it; a version is no update of itself.
pub proof fn law_update_goes_one_way(current: Seq<char>, latest: Seq<char>)
    ensures
        !(update_available(current, latest) && update_available(latest, current)),
        !update_available(current, current),
        update_available(current, latest) ==> parsed_version(current) is Some && parsed_version(
            latest,
        ) is Some,
        match (parsed_version(current), parsed_version(latest)) {
            (Some(a), Some(b)) => b.0 > a.0 ==> update_available(current, latest),
            _ => true,
        },
{
    match (parsed_version(current), parsed_version(latest)) {
        (Some(a), Some(b)) => {
            if a.3 is Some {
                lemma_precedes_irreflexive(a.3->0);
                if b.3 is Some && precedes(a.3->0, b.3->0) {
                    lemma_precedes_asymmetric(a.3->0, b.3->0);
                }
            }
        },
        (Some(a), None) => {
            if a.3 is Some {
                lemma_precedes_irreflexive(a.3->0);
            }
        },
        _ => {},
    }
}

} // verus!
