//! Releases: versions, checksums, signatures, and what an update may install.

use crate::metadata::{parse_u64, parsed_u64};
use crate::text::{
    chars, from_chars, glue, glue3, has_prefix, is_blank, join, joined, lemma_precedes_asymmetric,
    lemma_precedes_irreflexive, lemma_precedes_total, lemma_precedes_transitive, less, lines,
    lines_of, lower_ascii, matches_at, parts_of, precedes, push_text, put, same, slice_chars,
    split_all, split_at_char, split_once, split_whitespace, texts, to_lower_ascii, trim, trimmed,
    words,
};
use sha2::Digest;
use flate2::read::GzDecoder;
use std::io::Read;
use vstd::prelude::*;

verus! {

/// Whether a release without a signature is refused.
pub const REQUIRE_SIGNATURE: bool = false;

// ---------------------------------------------------------------------------
// Versions

/// The text without the prefix, however often it stands there.
pub open spec fn without_prefix(s: Seq<char>, p: Seq<char>) -> Seq<char>
    decreases s.len(),
{
    if p.len() > 0 && has_prefix(s, p) {
        without_prefix(s.skip(p.len() as int), p)
    } else {
        s
    }
}

/// The version that a tag names: without the component's name, then without the
/// letter before the number.
pub open spec fn version_of_tag(tag: Seq<char>) -> Seq<char> {
    without_prefix(without_prefix(without_prefix(tag, "finance-cli-"@), "v"@), "V"@)
}

fn drop_prefix(v: Vec<char>, prefix: &str) -> (r: Vec<char>)
    requires
        prefix@.len() > 0,
    ensures
        r@ == without_prefix(v@, prefix@),
{
    let p = chars(prefix);
    let mut rest = v;
    let ghost want = without_prefix(v@, prefix@);
    loop
        invariant_except_break
            p@ == prefix@,
            p@.len() > 0,
            without_prefix(rest@, prefix@) == want,
        ensures
            rest@ == want,
        decreases rest@.len(),
    {
        if p.len() <= rest.len() && matches_at(&rest, &p, 0) {
            assert(rest@.take(p@.len() as int) =~= rest@.subrange(0, p@.len() as int));
            rest = slice_chars(&rest, p.len(), rest.len());
        } else {
            assert(has_prefix(rest@, p@) ==> rest@.take(p@.len() as int) =~= rest@.subrange(
                0,
                p@.len() as int,
            ));
            break;
        }
    }
    rest
}

/// The version that a release tag such as `v0.3.1` or `finance-cli-v0.3.1` names.
pub fn strip_tag_prefix(tag: &str) -> (r: String)
    ensures
        r@ == version_of_tag(tag@),
{
    proof {
        reveal_strlit("finance-cli-");
        reveal_strlit("v");
        reveal_strlit("V");
    }
    let a = drop_prefix(chars(tag), "finance-cli-");
    let b = drop_prefix(a, "v");
    let c = drop_prefix(b, "V");
    from_chars(&c)
}

/// A version with three numbers, and a mark where it comes before its release.
pub struct SemVer {
    pub major: u64,
    pub minor: u64,
    pub patch: u64,
    pub pre: Option<String>,
}

impl View for SemVer {
    type V = (u64, u64, u64, Option<Seq<char>>);

    open spec fn view(&self) -> (u64, u64, u64, Option<Seq<char>>) {
        (
            self.major,
            self.minor,
            self.patch,
            match self.pre {
                Some(p) => Some(p@),
                None => None,
            },
        )
    }
}

/// The numbers of a version and the mark behind its first hyphen.
pub open spec fn version_parts(s: Seq<char>) -> (Seq<Seq<char>>, Option<Seq<char>>) {
    match split_at_char(trimmed(s), '-') {
        Some((base, pre)) => (parts_of(base, '.'), Some(pre)),
        None => (parts_of(trimmed(s), '.'), None),
    }
}

/// The version that a text names.
pub open spec fn parsed_version(s: Seq<char>) -> Option<(u64, u64, u64, Option<Seq<char>>)> {
    let (parts, pre) = version_parts(s);
    if parts.len() == 3 {
        match (parsed_u64(parts[0]), parsed_u64(parts[1]), parsed_u64(parts[2])) {
            (Some(a), Some(b), Some(c)) => Some((a, b, c, pre)),
            _ => None,
        }
    } else {
        None
    }
}

/// Why a text is no version.
pub open spec fn version_error(s: Seq<char>) -> Seq<char> {
    let (parts, _) = version_parts(s);
    if parts.len() != 3 {
        "version must be MAJOR.MINOR.PATCH, got: "@ + trimmed(s)
    } else if parsed_u64(parts[0]) is None {
        "invalid major version: "@ + parts[0]
    } else if parsed_u64(parts[1]) is None {
        "invalid minor version: "@ + parts[1]
    } else {
        "invalid patch version: "@ + parts[2]
    }
}

/// The version that a text names.
pub fn parse_version(s: &str) -> (r: Result<SemVer, String>)
    ensures
        match r {
            Ok(v) => parsed_version(s@) == Some(v@),
            Err(e) => parsed_version(s@) is None && e@ == version_error(s@),
        },
{
    let t = trim(s);
    let (base, pre): (String, Option<String>) = match split_once(t.as_str(), '-') {
        Some((b, p)) => (b, Some(p)),
        None => (t.clone(), None),
    };
    let parts = split_all(base.as_str(), '.');
    assert(texts(parts@).len() == parts@.len());
    if parts.len() != 3 {
        return Err(glue("version must be MAJOR.MINOR.PATCH, got: ", t.as_str()));
    }
    assert(texts(parts@)[0] == parts@[0]@);
    assert(texts(parts@)[1] == parts@[1]@);
    assert(texts(parts@)[2] == parts@[2]@);
    let major = match parse_u64(parts[0].as_str()) {
        Some(n) => n,
        None => {
            return Err(glue("invalid major version: ", parts[0].as_str()));
        },
    };
    let minor = match parse_u64(parts[1].as_str()) {
        Some(n) => n,
        None => {
            return Err(glue("invalid minor version: ", parts[1].as_str()));
        },
    };
    let patch = match parse_u64(parts[2].as_str()) {
        Some(n) => n,
        None => {
            return Err(glue("invalid patch version: ", parts[2].as_str()));
        },
    };
    Ok(SemVer { major, minor, patch, pre })
}

/// Whether the first version is newer than the second: by its numbers; with the same
/// numbers a release is newer than what comes before it, and of two such marks the
/// one that sorts behind is newer.
pub open spec fn newer(
    a: (u64, u64, u64, Option<Seq<char>>),
    b: (u64, u64, u64, Option<Seq<char>>),
) -> bool {
    if a.0 != b.0 {
        a.0 > b.0
    } else if a.1 != b.1 {
        a.1 > b.1
    } else if a.2 != b.2 {
        a.2 > b.2
    } else {
        match (a.3, b.3) {
            (None, Some(_)) => true,
            (Some(_), None) => false,
            (Some(x), Some(y)) => precedes(y, x),
            (None, None) => false,
        }
    }
}

/// Whether the first version is newer than the second.
pub fn is_newer(latest: &SemVer, current: &SemVer) -> (r: bool)
    ensures
        r == newer(latest@, current@),
{
    if latest.major != current.major {
        return latest.major > current.major;
    }
    if latest.minor != current.minor {
        return latest.minor > current.minor;
    }
    if latest.patch != current.patch {
        return latest.patch > current.patch;
    }
    match (&latest.pre, &current.pre) {
        (None, Some(_)) => true,
        (Some(_), None) => false,
        (Some(x), Some(y)) => less(y.as_str(), x.as_str()),
        (None, None) => false,
    }
}

/// No version is newer than itself, and of two different versions exactly one is the
/// newer: an update never goes back.
pub proof fn law_newer_is_strict(
    a: (u64, u64, u64, Option<Seq<char>>),
    b: (u64, u64, u64, Option<Seq<char>>),
)
    ensures
        !newer(a, a),
        newer(a, b) ==> !newer(b, a),
        a != b ==> newer(a, b) || newer(b, a),
{
    match (a.3, b.3) {
        (Some(x), Some(y)) => {
            lemma_precedes_irreflexive(x);
            lemma_precedes_total(x, y);
            if precedes(y, x) {
                lemma_precedes_asymmetric(y, x);
            }
        },
        (Some(x), None) => {
            lemma_precedes_irreflexive(x);
        },
        _ => {},
    }
}

/// What is newer than a newer version is newer.
pub proof fn law_newer_is_transitive(
    a: (u64, u64, u64, Option<Seq<char>>),
    b: (u64, u64, u64, Option<Seq<char>>),
    c: (u64, u64, u64, Option<Seq<char>>),
)
    requires
        newer(a, b),
        newer(b, c),
    ensures
        newer(a, c),
{
    match (a.3, b.3, c.3) {
        (Some(x), Some(y), Some(z)) => {
            if precedes(y, x) && precedes(z, y) {
                lemma_precedes_transitive(z, y, x);
            }
        },
        _ => {},
    }
}

// ---------------------------------------------------------------------------
// Releases

pub struct GitHubAsset {
    pub name: String,
    pub browser_download_url: String,
}

pub struct GitHubRelease {
    pub tag_name: String,
    pub html_url: String,
    pub assets: Vec<GitHubAsset>,
    /// The notes of the release.
    pub body: Option<String>,
}

/// The first asset with the name, from `from` on.
pub open spec fn asset_at(assets: Seq<GitHubAsset>, name: Seq<char>, from: int) -> Option<int>
    decreases assets.len() - from,
{
    if from < 0 || from >= assets.len() {
        None
    } else if assets[from].name@ == name {
        Some(from)
    } else {
        asset_at(assets, name, from + 1)
    }
}

/// The asset of a release with the name.
pub fn find_asset<'a>(release: &'a GitHubRelease, name: &str) -> (r: Result<
    &'a GitHubAsset,
    String,
>)
    ensures
        match r {
            Ok(a) => asset_at(release.assets@, name@, 0) is Some && *a == release.assets@[asset_at(
                release.assets@,
                name@,
                0,
            )->0] && a.name@ == name@,
            Err(e) => asset_at(release.assets@, name@, 0) is None && e@ == "asset '"@ + name@
                + "' not found in release "@ + release.tag_name@,
        },
{
    let mut i: usize = 0;
    while i < release.assets.len()
        invariant
            i <= release.assets.len(),
            asset_at(release.assets@, name@, 0) == asset_at(release.assets@, name@, i as int),
        decreases release.assets.len() - i,
    {
        if same(release.assets[i].name.as_str(), name) {
            return Ok(&release.assets[i]);
        }
        i = i + 1;
    }
    let head = glue3("asset '", name, "' not found in release ");
    Err(glue(head.as_str(), release.tag_name.as_str()))
}

/// What comes of a check for updates.
pub enum UpdateDecision {
    /// The running version cannot be read.
    MalformedCurrent,
    /// The version of the latest release cannot be read, and why.
    MalformedLatest(String, String),
    /// The running version is the latest.
    UpToDate(String),
    /// There is a newer version.
    Available(String),
}

/// What comes of a check for updates, by the running version and the tag of the
/// latest release.
pub fn decide_update(current: &str, latest_tag: &str) -> (r: UpdateDecision)
    ensures
        match r {
            UpdateDecision::MalformedCurrent => parsed_version(current@) is None,
            UpdateDecision::MalformedLatest(latest, why) => {
                &&& parsed_version(current@) is Some
                &&& latest@ == version_of_tag(latest_tag@)
                &&& parsed_version(latest@) is None
                &&& why@ == version_error(latest@)
            },
            UpdateDecision::UpToDate(latest) => {
                &&& parsed_version(current@) is Some
                &&& latest@ == version_of_tag(latest_tag@)
                &&& parsed_version(latest@) is Some
                &&& !newer(parsed_version(latest@)->0, parsed_version(current@)->0)
            },
            UpdateDecision::Available(latest) => {
                &&& parsed_version(current@) is Some
                &&& latest@ == version_of_tag(latest_tag@)
                &&& parsed_version(latest@) is Some
                &&& newer(parsed_version(latest@)->0, parsed_version(current@)->0)
            },
        },
{
    let running = match parse_version(current) {
        Ok(v) => v,
        Err(_) => {
            return UpdateDecision::MalformedCurrent;
        },
    };
    let latest = strip_tag_prefix(latest_tag);
    let found = match parse_version(latest.as_str()) {
        Ok(v) => v,
        Err(e) => {
            return UpdateDecision::MalformedLatest(latest, e);
        },
    };
    if is_newer(&found, &running) {
        UpdateDecision::Available(latest)
    } else {
        UpdateDecision::UpToDate(latest)
    }
}

/// What came of asking for the latest release.
pub enum FetchReply {
    /// The tag of the release.
    Release(String),
    /// The network failed for the moment, and how.
    Transient(String),
    /// It could not be had, and why.
    Failed(String),
}

/// What is written down of a check.
pub enum CheckNote {
    Nothing,
    /// The check failed, and why.
    Failed(String),
    /// The latest version that was seen.
    Seen(String),
}

/// What follows from a check: what to write down, what to say, and the version to install.
pub struct CheckPlan {
    pub note: CheckNote,
    pub message: Option<String>,
    pub install: Option<String>,
}

/// The error that a check by itself writes down.
pub open spec fn check_failure(current: Seq<char>, reply: FetchReply) -> Option<Seq<char>> {
    if parsed_version(current) is None {
        Some("malformed current version: "@ + current)
    } else {
        match reply {
            FetchReply::Transient(e) => Some("transient network error: "@ + e@),
            FetchReply::Failed(e) => Some("release fetch: "@ + e@),
            FetchReply::Release(tag) => {
                let latest = version_of_tag(tag@);
                if parsed_version(latest) is None {
                    Some("parse latest version '"@ + latest + "': "@ + version_error(latest))
                } else {
                    None
                }
            },
        }
    }
}

/// Whether a release is newer than the running version.
pub open spec fn offers_more(current: Seq<char>, tag: Seq<char>) -> bool {
    newer(parsed_version(version_of_tag(tag))->0, parsed_version(current)->0)
}

/// What is said before an update.
pub open spec fn update_notice(current: Seq<char>, latest: Seq<char>, forced: bool) -> Seq<char> {
    if forced {
        "finance-cli: atualização disponível: "@ + current + " → "@ + latest
            + ". Atualizando antes de sincronizar..."@
    } else {
        "finance-cli: update available: "@ + current + " → "@ + latest + ". Downloading..."@
    }
}

/// Whether a plan is what follows from a check. One that was asked for writes down only what
/// it saw, and says so where nothing could be had; one that runs by itself writes down why
/// it failed.
pub open spec fn follows(p: CheckPlan, current: Seq<char>, reply: FetchReply, forced: bool) -> bool {
    match check_failure(current, reply) {
        Some(why) => {
            &&& p.install is None
            &&& if forced {
                p.note is Nothing && match reply {
                    FetchReply::Release(_) => p.message is None,
                    FetchReply::Transient(e) => if parsed_version(current) is None {
                        p.message is None
                    } else {
                        p.message matches Some(m) && m@
                            == "Warning: não foi possível verificar atualizações: "@ + e@
                    },
                    FetchReply::Failed(e) => if parsed_version(current) is None {
                        p.message is None
                    } else {
                        p.message matches Some(m) && m@
                            == "Warning: não foi possível verificar atualizações: "@ + e@
                    },
                }
            } else {
                (p.note matches CheckNote::Failed(w) && w@ == why) && p.message is None
            }
        },
        None => {
            let tag = reply->Release_0;
            let latest = version_of_tag(tag@);
            &&& (p.note matches CheckNote::Seen(l) && l@ == latest)
            &&& if offers_more(current, tag@) {
                (p.install matches Some(v) && v@ == latest) && (p.message matches Some(m) && m@
                    == update_notice(current, latest, forced))
            } else {
                p.install is None && p.message is None
            }
        },
    }
}

fn make_notice(current: &str, latest: &str, forced: bool) -> (r: String)
    ensures
        r@ == update_notice(current@, latest@, forced),
{
    let mut out = chars(
        if forced {
            "finance-cli: atualização disponível: "
        } else {
            "finance-cli: update available: "
        },
    );
    put(&mut out, current);
    put(&mut out, " → ");
    put(&mut out, latest);
    put(
        &mut out,
        if forced {
            ". Atualizando antes de sincronizar..."
        } else {
            ". Downloading..."
        },
    );
    from_chars(&out)
}

fn failed_plan(why: String, warning: Option<String>, forced: bool) -> (r: CheckPlan)
    ensures
        r.install is None,
        forced ==> r.note is Nothing && r.message == warning,
        !forced ==> r.note == CheckNote::Failed(why) && r.message is None,
{
    if forced {
        CheckPlan { note: CheckNote::Nothing, message: warning, install: None }
    } else {
        CheckPlan { note: CheckNote::Failed(why), message: None, install: None }
    }
}

/// What follows from a check for updates: of one that was asked for, or of one that runs by
/// itself.
pub fn plan_check(current: &str, reply: &FetchReply, forced: bool) -> (r: CheckPlan)
    ensures
        follows(r, current@, *reply, forced),
{
    if parse_version(current).is_err() {
        return failed_plan(glue("malformed current version: ", current), None, forced);
    }
    match reply {
        FetchReply::Transient(e) => failed_plan(
            glue("transient network error: ", e.as_str()),
            Some(glue("Warning: não foi possível verificar atualizações: ", e.as_str())),
            forced,
        ),
        FetchReply::Failed(e) => failed_plan(
            glue("release fetch: ", e.as_str()),
            Some(glue("Warning: não foi possível verificar atualizações: ", e.as_str())),
            forced,
        ),
        FetchReply::Release(tag) => match decide_update(current, tag.as_str()) {
            UpdateDecision::MalformedCurrent => failed_plan(
                glue("malformed current version: ", current),
                None,
                forced,
            ),
            UpdateDecision::MalformedLatest(latest, why) => {
                let mut out = chars("parse latest version '");
                put(&mut out, latest.as_str());
                put(&mut out, "': ");
                put(&mut out, why.as_str());
                failed_plan(from_chars(&out), None, forced)
            },
            UpdateDecision::UpToDate(latest) => CheckPlan {
                note: CheckNote::Seen(latest),
                message: None,
                install: None,
            },
            UpdateDecision::Available(latest) => {
                let message = make_notice(current, latest.as_str(), forced);
                CheckPlan {
                    note: CheckNote::Seen(latest.clone()),
                    message: Some(message),
                    install: Some(latest),
                }
            },
        },
    }
}

/// What is written down where an update that was found has not taken the place of the
/// running program: it could not be installed, and why, or it was and did not start.
pub fn install_note(failure: Option<&str>, forced: bool) -> (r: CheckNote)
    ensures
        forced ==> r == CheckNote::Nothing,
        !forced ==> (r matches CheckNote::Failed(w) && w@ == match failure {
            Some(e) => "download/replace: "@ + e@,
            None => "exec after update failed"@,
        }),
{
    if forced {
        return CheckNote::Nothing;
    }
    match failure {
        Some(e) => CheckNote::Failed(glue("download/replace: ", e)),
        None => CheckNote::Failed("exec after update failed".to_string()),
    }
}

/// Only a version that is newer than the running one is installed, and whichever was seen is
/// written down.
pub proof fn law_only_newer_is_installed(
    p: CheckPlan,
    current: Seq<char>,
    reply: FetchReply,
    forced: bool,
)
    requires
        follows(p, current, reply, forced),
        p.install is Some,
    ensures
        parsed_version(current) is Some,
        parsed_version(p.install->Some_0@) is Some,
        newer(parsed_version(p.install->Some_0@)->0, parsed_version(current)->0),
        p.note matches CheckNote::Seen(l) && l@ == p.install->Some_0@,
{
}

/// Whether the check for updates runs at the start of a command, and what to warn
/// of: not where it is switched off, not right after an update, and not for the
/// commands that deal with updates themselves.
pub fn should_run_auto_check(
    switched_off: bool,
    updated_to: Option<&str>,
    version: &str,
    is_self_command: bool,
) -> (r: (bool, Option<String>))
    ensures
        r.0 == (!switched_off && updated_to is None && !is_self_command),
        match r.1 {
            Some(w) => !switched_off && updated_to is Some && updated_to->0@ != version@ && w@
                == "warning: re-exec sentinel mismatch — old binary still running? (sentinel="@
                + updated_to->0@ + ", binary="@ + version@ + ")"@,
            None => switched_off || updated_to is None || updated_to->0@ == version@,
        },
{
    if switched_off {
        return (false, None);
    }
    match updated_to {
        Some(v) => {
            if same(v, version) {
                (false, None)
            } else {
                let mut w = chars(
                    "warning: re-exec sentinel mismatch — old binary still running? (sentinel=",
                );
                put(&mut w, v);
                put(&mut w, ", binary=");
                put(&mut w, version);
                put(&mut w, ")");
                (false, Some(from_chars(&w)))
            }
        },
        None => (!is_self_command, None),
    }
}

/// Whether a check finds a newer version: both versions can be read, and the latest is
/// newer.
pub open spec fn update_available(current: Seq<char>, latest: Seq<char>) -> bool {
    parsed_version(current) is Some && parsed_version(latest) is Some && newer(
        parsed_version(latest)->0,
        parsed_version(current)->0,
    )
}

/// What a check for updates tells, by the tag of the latest release where it is known.
pub open spec fn check_text(
    current: Seq<char>,
    triple: Seq<char>,
    tag: Option<Seq<char>>,
    repository: Seq<char>,
) -> Seq<Seq<char>> {
    seq!["Current version: "@ + current, "Target triple:   "@ + triple] + (match tag {
        Some(t) => seq![
            "Latest version:  "@ + version_of_tag(t),
            "Release URL:     "@ + repository + "/releases/tag/"@ + t,
            (if update_available(current, version_of_tag(t)) {
                "Update available: yes"@
            } else {
                "Update available: no (already up to date)"@
            }),
        ],
        None => seq!["Latest version:  unavailable"@, "Update available: unknown"@],
    })
}

/// What a check for updates tells.
pub fn self_check(current: &str, triple: &str, tag: Option<&str>, repository: &str) -> (r: Vec<String>)
    ensures
        texts(r@) == check_text(
            current@,
            triple@,
            match tag {
                Some(t) => Some(t@),
                None => None,
            },
            repository@,
        ),
{
    let mut out: Vec<String> = Vec::new();
    assert(texts(out@) =~= Seq::<Seq<char>>::empty());
    push_text(&mut out, glue("Current version: ", current));
    push_text(&mut out, glue("Target triple:   ", triple));
    match tag {
        Some(t) => {
            let latest = strip_tag_prefix(t);
            push_text(&mut out, glue("Latest version:  ", latest.as_str()));
            let mut url = chars("Release URL:     ");
            put(&mut url, repository);
            put(&mut url, "/releases/tag/");
            put(&mut url, t);
            push_text(&mut out, from_chars(&url));
            let found = match decide_update(current, t) {
                UpdateDecision::Available(_) => true,
                _ => false,
            };
            push_text(
                &mut out,
                if found {
                    "Update available: yes".to_string()
                } else {
                    "Update available: no (already up to date)".to_string()
                },
            );
        },
        None => {
            push_text(&mut out, "Latest version:  unavailable".to_string());
            push_text(&mut out, "Update available: unknown".to_string());
        },
    }
    assert(texts(out@) =~= check_text(
        current@,
        triple@,
        match tag {
            Some(t) => Some(t@),
            None => None,
        },
        repository@,
    ));
    out
}

/// What an update tells before anything is fetched.
pub fn tell_decision(current: &str, decision: &UpdateDecision) -> (r: String)
    ensures
        r@ == (match *decision {
            UpdateDecision::MalformedCurrent => "Current version "@ + current@
                + " is malformed — cannot check for updates."@,
            UpdateDecision::MalformedLatest(latest, _) => "Error: could not parse latest version: "@
                + latest@,
            UpdateDecision::UpToDate(_) => "Already up to date ("@ + current@ + ")."@,
            UpdateDecision::Available(latest) => "Updating from "@ + current@ + " to "@ + latest@
                + "..."@,
        }),
{
    match decision {
        UpdateDecision::MalformedCurrent => glue3(
            "Current version ",
            current,
            " is malformed — cannot check for updates.",
        ),
        UpdateDecision::MalformedLatest(latest, _) => glue(
            "Error: could not parse latest version: ",
            latest.as_str(),
        ),
        UpdateDecision::UpToDate(_) => glue3("Already up to date (", current, ")."),
        UpdateDecision::Available(latest) => {
            let mut out = chars("Updating from ");
            put(&mut out, current);
            put(&mut out, " to ");
            put(&mut out, latest.as_str());
            put(&mut out, "...");
            from_chars(&out)
        },
    }
}

// ---------------------------------------------------------------------------
// Checksums

pub open spec fn hex_digit(c: char) -> bool {
    '0' <= c <= '9' || 'a' <= c <= 'f' || 'A' <= c <= 'F'
}

fn is_hex_digit(c: char) -> (r: bool)
    ensures
        r == hex_digit(c),
{
    ('0' <= c && c <= '9') || ('a' <= c && c <= 'f') || ('A' <= c && c <= 'F')
}

/// Whether the text is a SHA-256 sum: 64 hexadecimal digits.
pub open spec fn is_sum(s: Seq<char>) -> bool {
    s.len() == 64 && forall|i: int| 0 <= i < s.len() ==> hex_digit(#[trigger] s[i])
}

fn check_sum_text(v: &Vec<char>) -> (r: bool)
    ensures
        r == is_sum(v@),
{
    if v.len() != 64 {
        return false;
    }
    let mut i: usize = 0;
    while i < v.len()
        invariant
            i <= v.len(),
            forall|j: int| 0 <= j < i ==> hex_digit(#[trigger] v@[j]),
        decreases v.len() - i,
    {
        if !is_hex_digit(v[i]) {
            assert(!hex_digit(v@[i as int]));
            return false;
        }
        i = i + 1;
    }
    true
}

/// The sum in a checksum file: its first word, in small letters.
pub fn parse_sha256(checksum_file: &str) -> (r: Result<String, String>)
    ensures
        match r {
            Ok(sum) => words(checksum_file@).len() > 0 && is_sum(words(checksum_file@)[0]) && sum@
                == lower_ascii(words(checksum_file@)[0]),
            Err(e) => if words(checksum_file@).len() == 0 {
                e@ == "empty checksum file"@
            } else {
                !is_sum(words(checksum_file@)[0]) && e@ == "invalid sha256 hex: "@ + words(
                    checksum_file@,
                )[0]
            },
        },
{
    let parts = split_whitespace(checksum_file);
    assert(texts(parts@).len() == parts@.len());
    if parts.len() == 0 {
        return Err("empty checksum file".to_string());
    }
    assert(texts(parts@)[0] == parts@[0]@);
    if !check_sum_text(&chars(parts[0].as_str())) {
        return Err(glue("invalid sha256 hex: ", parts[0].as_str()));
    }
    Ok(to_lower_ascii(parts[0].as_str()))
}

/// The SHA-256 sum of the data, as hexadecimal digits in small letters.
pub uninterp spec fn sha256_text(data: Seq<u8>) -> Seq<char>;

/// `sha2`'s `Sha256`, fed the data at once, and the hexadecimal form of its digest,
/// which has 64 digits.
#[verifier::external_body]
fn sha256_hex(data: &[u8]) -> (r: String)
    ensures
        r@ == sha256_text(data@),
        r@.len() == 64,
{
    let mut hasher = sha2::Sha256::new();
    hasher.update(data);
    format!("{:x}", hasher.finalize())
}

/// Whether the data has the sum.
pub fn validate_tarball_sha256(data: &[u8], expected_hex: &str) -> (r: Result<(), String>)
    ensures
        match r {
            Ok(_) => sha256_text(data@) == expected_hex@,
            Err(e) => sha256_text(data@) != expected_hex@ && e@ == "checksum mismatch: expected "@
                + expected_hex@ + ", got "@ + sha256_text(data@),
        },
{
    let actual = sha256_hex(data);
    if same(actual.as_str(), expected_hex) {
        return Ok(());
    }
    let head = glue3("checksum mismatch: expected ", expected_hex, ", got ");
    Err(glue(head.as_str(), actual.as_str()))
}

// ---------------------------------------------------------------------------
// Signatures

/// Whether `minisign_verify` reads a public key from the text.
pub uninterp spec fn public_key_decodes(text: Seq<char>) -> bool;

/// `minisign_verify`'s `PublicKey::decode`: whether it reads a key from the text.
#[verifier::external_body]
fn is_public_key(text: &str) -> (r: bool)
    ensures
        r == public_key_decodes(text@),
{
    minisign_verify::PublicKey::decode(text).is_ok()
}

/// Whether `minisign_verify` reads a signature from the text.
pub uninterp spec fn signature_decodes(text: Seq<char>) -> bool;

/// `minisign_verify`'s `Signature::decode`: whether it reads a signature from the text.
#[verifier::external_body]
fn is_signature(text: &str) -> (r: bool)
    ensures
        r == signature_decodes(text@),
{
    minisign_verify::Signature::decode(text).is_ok()
}

/// Whether the signature is one of the data by the key.
pub uninterp spec fn signature_verifies(key: Seq<char>, data: Seq<u8>, signature: Seq<char>) -> bool;

/// `minisign_verify`'s `PublicKey::verify`, without signatures of the older form. A
/// key or signature that cannot be read verifies nothing.
#[verifier::external_body]
fn verifies(key: &str, data: &[u8], signature: &str) -> (r: bool)
    ensures
        r == signature_verifies(key@, data@, signature@),
{
    match (minisign_verify::PublicKey::decode(key), minisign_verify::Signature::decode(signature)) {
        (Ok(k), Ok(s)) => k.verify(data, &s, false).is_ok(),
        _ => false,
    }
}

/// Whether the signature is one of the tarball by the key.
pub fn verify_minisign_signature(key: &str, tarball: &[u8], signature_text: &str) -> (r: Result<
    (),
    String,
>)
    ensures
        match r {
            Ok(_) => public_key_decodes(key@) && signature_decodes(signature_text@)
                && signature_verifies(key@, tarball@, signature_text@),
            Err(e) => if !public_key_decodes(key@) {
                e@ == "embedded signing public key failed to parse"@
            } else if !signature_decodes(signature_text@) {
                e@ == "release signature failed to parse"@
            } else {
                !signature_verifies(key@, tarball@, signature_text@) && e@
                    == "release signature did not verify against the embedded public key"@
            },
        },
{
    if !is_public_key(key) {
        return Err("embedded signing public key failed to parse".to_string());
    }
    if !is_signature(signature_text) {
        return Err("release signature failed to parse".to_string());
    }
    if !verifies(key, tarball, signature_text) {
        return Err("release signature did not verify against the embedded public key".to_string());
    }
    Ok(())
}

/// What is to be done about the signature of a release.
#[derive(Clone, Copy, Debug, PartialEq, Eq, Structural)]
pub enum SignatureStep {
    /// It is not looked at; somebody switched that off.
    Skip,
    /// It is fetched and verified.
    Verify,
    /// There is none, and that is not enough.
    Refuse,
    /// There is none; the checksum has to do.
    ChecksumOnly,
}

/// What is to be done about the signature of a release.
pub open spec fn step_for(skip: bool, has_signature: bool, required: bool) -> SignatureStep {
    if skip {
        SignatureStep::Skip
    } else if has_signature {
        SignatureStep::Verify
    } else if required {
        SignatureStep::Refuse
    } else {
        SignatureStep::ChecksumOnly
    }
}

/// What is to be done about the signature of a release.
pub fn signature_step(skip: bool, has_signature: bool, required: bool) -> (r: SignatureStep)
    ensures
        r == step_for(skip, has_signature, required),
{
    if skip {
        SignatureStep::Skip
    } else if has_signature {
        SignatureStep::Verify
    } else if required {
        SignatureStep::Refuse
    } else {
        SignatureStep::ChecksumOnly
    }
}

/// A present signature is verified unless that is switched off, whether or not
/// signatures are required; a missing one is refused where they are.
pub proof fn law_signatures_are_heeded(required: bool)
    ensures
        step_for(false, true, required) == SignatureStep::Verify,
        step_for(false, false, true) == SignatureStep::Refuse,
{
}

// ---------------------------------------------------------------------------
// Unpacking

/// An entry of an archive.
pub struct ArchiveEntry {
    pub path: String,
    /// The bytes of its header.
    pub header: Vec<u8>,
    /// How long it is to be.
    pub size: u64,
    /// What the archive holds of it.
    pub contents: Vec<u8>,
}

impl View for ArchiveEntry {
    type V = (Seq<char>, Seq<u8>, u64, Seq<u8>);

    open spec fn view(&self) -> (Seq<char>, Seq<u8>, u64, Seq<u8>) {
        (self.path@, self.header@, self.size, self.contents@)
    }
}

pub open spec fn entry_views(s: Seq<ArchiveEntry>) -> Seq<(Seq<char>, Seq<u8>, u64, Seq<u8>)> {
    s.map_values(|e: ArchiveEntry| e@)
}

/// Where reading an archive stops before its end.
#[derive(Clone, Copy, Debug, PartialEq, Eq, Structural)]
pub enum ArchiveFailure {
    /// It cannot be walked.
    Entries,
    /// An entry cannot be read.
    Entry,
    /// The path of an entry cannot be read.
    Path,
}

/// The entries of a compressed archive, up to where reading fails, and where it fails.
pub uninterp spec fn archive_files(data: Seq<u8>) -> (
    Seq<(Seq<char>, Seq<u8>, u64, Seq<u8>)>,
    Option<ArchiveFailure>,
);

/// `tar`'s `Archive::entries` on the bytes that `flate2`'s `GzDecoder` gives: of each
/// entry its path, the bytes of its header, its size and as much of its contents as can
/// be read, until something cannot be. Bytes of a path that are no text are replaced by a
/// mark.
#[verifier::external_body]
fn read_archive(data: &[u8]) -> (r: (Vec<ArchiveEntry>, Option<ArchiveFailure>))
    ensures
        (entry_views(r.0@), r.1) == archive_files(data@),
{
    let (mut out, mut at) = (Vec::new(), ArchiveFailure::Entries);
    let end = tar::Archive::new(GzDecoder::new(data)).entries().and_then(|entries| {
        for entry in entries {
            at = ArchiveFailure::Entry;
            let mut entry = entry?;
            at = ArchiveFailure::Path;
            let path = entry.path()?.to_string_lossy().into_owned();
            at = ArchiveFailure::Entry;
            let (header, size) = (entry.header().as_bytes().to_vec(), entry.size());
            out.push(ArchiveEntry { path, header, size, contents: Vec::new() });
            entry.read_to_end(&mut out.last_mut().unwrap().contents)?;
        }
        Ok(())
    });
    (out, end.err().and(Some(at)))
}

/// Whether a path leads out of the directory that it is unpacked in: it begins at
/// the root, or climbs.
pub open spec fn escapes(path: Seq<char>) -> bool {
    (path.len() > 0 && path[0] == '/') || parts_of(path, '/').contains(".."@)
}

/// Whether a path names the program itself: `fin`, with nothing behind it but slashes
/// and single dots.
pub open spec fn names_program(path: Seq<char>) -> bool {
    let parts = parts_of(path, '/');
    parts[0] == "fin"@ && forall|i: int|
        1 <= i < parts.len() ==> (#[trigger] parts[i]).len() == 0 || parts[i] == "."@
}

fn does_escape(path: &str) -> (r: bool)
    ensures
        r == escapes(path@),
{
    let v = chars(path);
    if v.len() > 0 && v[0] == '/' {
        return true;
    }
    crate::summary::holds(&split_all(path, '/'), "..")
}

fn is_program(path: &str) -> (r: bool)
    ensures
        r == names_program(path@),
{
    let parts = split_all(path, '/');
    assert(texts(parts@)[0] == parts@[0]@);
    if !same(parts[0].as_str(), "fin") {
        return false;
    }
    let mut i: usize = 1;
    while i < parts.len()
        invariant
            1 <= i <= parts.len(),
            texts(parts@) == parts_of(path@, '/'),
            forall|j: int|
                1 <= j < i ==> (#[trigger] texts(parts@)[j]).len() == 0 || texts(parts@)[j] == "."@,
        decreases parts.len() - i,
    {
        assert(texts(parts@)[i as int] == parts@[i as int]@);
        if !parts[i].as_str().is_empty() && !same(parts[i].as_str(), ".") {
            return false;
        }
        i = i + 1;
    }
    assert(texts(parts@).len() == parts@.len());
    true
}

/// Whether a path has a part that names something.
pub open spec fn has_name(path: Seq<char>) -> bool {
    exists|i: int|
        0 <= i < parts_of(path, '/').len() && (#[trigger] parts_of(path, '/')[i]).len() > 0
            && parts_of(path, '/')[i] != "."@
}

fn is_named(path: &str) -> (r: bool)
    ensures
        r == has_name(path@),
{
    let parts = split_all(path, '/');
    let mut i: usize = 0;
    while i < parts.len()
        invariant
            i <= parts.len(),
            texts(parts@) == parts_of(path@, '/'),
            forall|j: int|
                0 <= j < i ==> (#[trigger] texts(parts@)[j]).len() == 0 || texts(parts@)[j] == "."@,
        decreases parts.len() - i,
    {
        assert(texts(parts@)[i as int] == parts@[i as int]@);
        if !parts[i].as_str().is_empty() && !same(parts[i].as_str(), ".") {
            return true;
        }
        i = i + 1;
    }
    assert(texts(parts@).len() == parts@.len());
    false
}

/// The letter in a header that tells a file from a directory, a link and the rest.
pub open spec fn type_flag(header: Seq<u8>) -> int {
    if header.len() > 156 {
        header[156] as int
    } else {
        0
    }
}

/// Whether the flag is that of a link (`1`, `2`), of a directory (`5`) or of a header
/// that speaks of other entries (`g`, `x`, `L`, `K`).
pub open spec fn is_bare(flag: int) -> bool {
    flag == '1' as int || flag == '2' as int || flag == '5' as int || flag == 'g' as int || flag
        == 'x' as int || flag == 'L' as int || flag == 'K' as int
}

/// Whether a header is of the POSIX kind: it names that format and its version.
pub open spec fn is_posix(header: Seq<u8>) -> bool {
    header.len() >= 265 && header.subrange(257, 265) == posix_mark()
}

/// The word `ustar`, a zero and the version `00`.
pub open spec fn posix_mark() -> Seq<u8> {
    seq![0x75u8, 0x73, 0x74, 0x61, 0x72, 0x00, 0x30, 0x30]
}

/// Whether unpacking the entry writes its contents to a file. A directory, a link and a
/// header that speaks of other entries have none; nor has what an older header names
/// with a slash at the end, which is a directory.
pub open spec fn writes_file(e: (Seq<char>, Seq<u8>, u64, Seq<u8>)) -> bool {
    has_name(e.0) && !is_bare(type_flag(e.1)) && (is_posix(e.1) || !(e.0.len() > 0 && e.0.last()
        == '/'))
}

fn has_posix_mark(h: &Vec<u8>) -> (r: bool)
    ensures
        r == is_posix(h@),
{
    if h.len() < 265 {
        return false;
    }
    let r = h[257] == 0x75 && h[258] == 0x73 && h[259] == 0x74 && h[260] == 0x61 && h[261] == 0x72
        && h[262] == 0x00 && h[263] == 0x30 && h[264] == 0x30;
    proof {
        let s = h@.subrange(257, 265);
        assert(s[0] == h@[257] && s[1] == h@[258] && s[2] == h@[259] && s[3] == h@[260]);
        assert(s[4] == h@[261] && s[5] == h@[262] && s[6] == h@[263] && s[7] == h@[264]);
        if r {
            assert(s =~= posix_mark());
        } else {
            let m = posix_mark();
            assert(m[0] == 0x75 && m[1] == 0x73 && m[2] == 0x74 && m[3] == 0x61);
            assert(m[4] == 0x72 && m[5] == 0x00 && m[6] == 0x30 && m[7] == 0x30);
        }
    }
    r
}

impl ArchiveEntry {
    /// Whether unpacking the entry writes its contents to a file.
    pub fn is_file(&self) -> (r: bool)
        ensures
            r == writes_file(self@),
    {
        let flag: u8 = if self.header.len() > 156 {
            self.header[156]
        } else {
            0
        };
        let bare = flag == '1' as u8 || flag == '2' as u8 || flag == '5' as u8 || flag == 'g' as u8
            || flag == 'x' as u8 || flag == 'L' as u8 || flag == 'K' as u8;
        if bare || !is_named(self.path.as_str()) {
            return false;
        }
        let v = chars(self.path.as_str());
        has_posix_mark(&self.header) || !(v.len() > 0 && v[v.len() - 1] == '/')
    }
}

/// Why an entry is not unpacked: its path leads out, or the archive ends within it.
pub open spec fn entry_error(e: (Seq<char>, Seq<u8>, u64, Seq<u8>)) -> Option<Seq<char>> {
    if escapes(e.0) {
        Some("path traversal rejected: "@ + e.0 + " resolves outside temp dir"@)
    } else if writes_file(e) && e.3.len() < e.2 {
        Some("failed to unpack tarball entry"@)
    } else {
        None
    }
}

/// Why the first of the entries from `from` on that is not unpacked is not.
pub open spec fn first_error(
    files: Seq<(Seq<char>, Seq<u8>, u64, Seq<u8>)>,
    from: int,
) -> Option<Seq<char>>
    decreases files.len() - from,
{
    if from < 0 || from >= files.len() {
        None
    } else if entry_error(files[from]) is Some {
        entry_error(files[from])
    } else {
        first_error(files, from + 1)
    }
}

pub open spec fn failure_text(f: ArchiveFailure) -> Seq<char> {
    match f {
        ArchiveFailure::Entries => "failed to iterate tarball entries"@,
        ArchiveFailure::Entry => "failed to read tarball entry"@,
        ArchiveFailure::Path => "failed to read entry path"@,
    }
}

/// The last of the first `n` entries that bears the program's name, whatever it is.
pub open spec fn program_in(
    files: Seq<(Seq<char>, Seq<u8>, u64, Seq<u8>)>,
    n: int,
) -> Option<(Seq<char>, Seq<u8>, u64, Seq<u8>)>
    decreases n,
{
    if n <= 0 {
        None
    } else if names_program(files[n - 1].0) {
        Some(files[n - 1])
    } else {
        program_in(files, n - 1)
    }
}

/// What taking the program out of an archive gives.
pub open spec fn is_taken(
    r: Result<ArchiveEntry, String>,
    files: Seq<(Seq<char>, Seq<u8>, u64, Seq<u8>)>,
    failure: Option<ArchiveFailure>,
) -> bool {
    match first_error(files, 0) {
        Some(e) => r is Err && r->Err_0@ == e,
        None => match failure {
            Some(f) => r is Err && r->Err_0@ == failure_text(f),
            None => match program_in(files, files.len() as int) {
                Some(e) => r is Ok && r->Ok_0@ == e,
                None => r is Err && r->Err_0@ == "executable 'fin' not found in tarball"@,
            },
        },
    }
}

/// Takes the program out of the entries of an archive: the last entry with its name.
/// Where a path leads out, or an entry is cut short, nothing is taken at all.
pub fn take_program(entries: Vec<ArchiveEntry>, failure: Option<ArchiveFailure>) -> (r: Result<
    ArchiveEntry,
    String,
>)
    ensures
        is_taken(r, entry_views(entries@), failure),
{
    let ghost files = entry_views(entries@);
    let n: usize = entries.len();
    let mut rest = entries;
    let ghost all = rest@;
    let mut found: Option<ArchiveEntry> = None;
    let mut i: usize = 0;
    while i < n
        invariant
            i <= n,
            n == all.len(),
            files == entry_views(all),
            all == entries@,
            rest@ == all.skip(i as int),
            first_error(files, 0) == first_error(files, i as int),
            match found {
                Some(e) => program_in(files, i as int) == Some(e@),
                None => program_in(files, i as int) is None,
            },
        decreases n - i,
    {
        let entry = rest.remove(0);
        assert(entry == all[i as int]);
        assert(files[i as int] == entry@);
        assert(rest@ =~= all.skip(i + 1));
        if does_escape(entry.path.as_str()) {
            return Err(
                glue3(
                    "path traversal rejected: ",
                    entry.path.as_str(),
                    " resolves outside temp dir",
                ),
            );
        }
        if entry.is_file() && (entry.contents.len() as u64) < entry.size {
            return Err("failed to unpack tarball entry".to_string());
        }
        if is_program(entry.path.as_str()) {
            found = Some(entry);
        }
        i = i + 1;
    }
    match failure {
        Some(ArchiveFailure::Entries) => Err("failed to iterate tarball entries".to_string()),
        Some(ArchiveFailure::Entry) => Err("failed to read tarball entry".to_string()),
        Some(ArchiveFailure::Path) => Err("failed to read entry path".to_string()),
        None => match found {
            Some(e) => Ok(e),
            None => Err("executable 'fin' not found in tarball".to_string()),
        },
    }
}

/// The program in a release tarball: its entry, be that a file, a directory or a link.
pub fn extract_binary(tarball: &[u8]) -> (r: Result<ArchiveEntry, String>)
    ensures
        ({
            let (files, failure) = archive_files(tarball@);
            is_taken(r, files, failure)
        }),
{
    let (entries, failure) = read_archive(tarball);
    take_program(entries, failure)
}

/// Nothing comes out of an archive that holds a path leading out of the directory.
pub proof fn law_escaping_archive_is_refused(
    r: Result<ArchiveEntry, String>,
    files: Seq<(Seq<char>, Seq<u8>, u64, Seq<u8>)>,
    failure: Option<ArchiveFailure>,
    i: int,
)
    requires
        is_taken(r, files, failure),
        0 <= i < files.len(),
        escapes(files[i].0),
    ensures
        r is Err,
{
    lemma_error_found(files, 0, i);
}

/// A program that comes out of an archive as a file is whole.
pub proof fn law_program_is_whole(
    r: Result<ArchiveEntry, String>,
    files: Seq<(Seq<char>, Seq<u8>, u64, Seq<u8>)>,
    failure: Option<ArchiveFailure>,
)
    requires
        is_taken(r, files, failure),
        r is Ok,
        writes_file(r->Ok_0@),
    ensures
        r->Ok_0.contents@.len() >= r->Ok_0.size,
        names_program(r->Ok_0.path@),
{
    let i = lemma_program_in(files, files.len() as int);
    if r->Ok_0.contents@.len() < r->Ok_0.size {
        lemma_error_found(files, 0, i);
    }
}

proof fn lemma_program_in(files: Seq<(Seq<char>, Seq<u8>, u64, Seq<u8>)>, n: int) -> (i: int)
    requires
        0 <= n <= files.len(),
        program_in(files, n) is Some,
    ensures
        0 <= i < n,
        program_in(files, n) == Some(files[i]),
        names_program(files[i].0),
    decreases n,
{
    if names_program(files[n - 1].0) {
        n - 1
    } else {
        lemma_program_in(files, n - 1)
    }
}

proof fn lemma_error_found(
    files: Seq<(Seq<char>, Seq<u8>, u64, Seq<u8>)>,
    from: int,
    i: int,
)
    requires
        0 <= from <= i < files.len(),
        entry_error(files[i]) is Some,
    ensures
        first_error(files, from) is Some,
    decreases i - from,
{
    if from < i {
        lemma_error_found(files, from + 1, i);
    }
}

/// What there is of a release's signature when its tarball is unpacked.
pub enum SignatureReply {
    /// Somebody switched its verification off.
    Skipped,
    /// The release has none.
    Missing,
    /// Its text.
    Fetched(String),
}

/// Why a release is not unpacked: its checksum or its signature.
pub open spec fn release_error(
    tag: Seq<char>,
    signature_name: Seq<char>,
    tarball: Seq<u8>,
    checksum_file: Seq<char>,
    key: Seq<char>,
    required: bool,
    signature: SignatureReply,
) -> Option<Seq<char>> {
    let parts = words(checksum_file);
    if parts.len() == 0 {
        Some("empty checksum file"@)
    } else if !is_sum(parts[0]) {
        Some("invalid sha256 hex: "@ + parts[0])
    } else if sha256_text(tarball) != lower_ascii(parts[0]) {
        Some(
            "checksum mismatch: expected "@ + lower_ascii(parts[0]) + ", got "@ + sha256_text(
                tarball,
            ),
        )
    } else {
        match signature {
            SignatureReply::Skipped => None,
            SignatureReply::Missing => if required {
                Some(
                    "release "@ + tag + " does not ship a "@ + signature_name
                        + " sidecar; refusing to update without a verifiable signature"@,
                )
            } else {
                None
            },
            SignatureReply::Fetched(s) => if !public_key_decodes(key) {
                Some("embedded signing public key failed to parse"@)
            } else if !signature_decodes(s@) {
                Some("release signature failed to parse"@)
            } else if !signature_verifies(key, tarball, s@) {
                Some("release signature did not verify against the embedded public key"@)
            } else {
                None
            },
        }
    }
}

/// The program in a release, once its checksum and, where it has one, its signature
/// were verified. Nothing is unpacked before that.
pub fn unpack_release(
    tag: &str,
    signature_name: &str,
    tarball: &[u8],
    checksum_file: &str,
    key: &str,
    required: bool,
    signature: &SignatureReply,
) -> (r: Result<ArchiveEntry, String>)
    ensures
        match release_error(
            tag@,
            signature_name@,
            tarball@,
            checksum_file@,
            key@,
            required,
            *signature,
        ) {
            Some(e) => r is Err && r->Err_0@ == e,
            None => {
                let (files, failure) = archive_files(tarball@);
                is_taken(r, files, failure)
            },
        },
{
    let expected = match parse_sha256(checksum_file) {
        Ok(s) => s,
        Err(e) => {
            return Err(e);
        },
    };
    match validate_tarball_sha256(tarball, expected.as_str()) {
        Ok(_) => {},
        Err(e) => {
            return Err(e);
        },
    }
    match signature {
        SignatureReply::Skipped => {},
        SignatureReply::Missing => {
            if required {
                let mut m = chars("release ");
                put(&mut m, tag);
                put(&mut m, " does not ship a ");
                put(&mut m, signature_name);
                put(&mut m, " sidecar; refusing to update without a verifiable signature");
                return Err(from_chars(&m));
            }
        },
        SignatureReply::Fetched(s) => {
            match verify_minisign_signature(key, tarball, s.as_str()) {
                Ok(_) => {},
                Err(e) => {
                    return Err(e);
                },
            }
        },
    }
    extract_binary(tarball)
}

/// What is unpacked has the checksum that the release names, and, where its signature
/// was fetched, that signature.
pub proof fn law_unpacked_release_is_checked(
    tag: Seq<char>,
    signature_name: Seq<char>,
    tarball: Seq<u8>,
    checksum_file: Seq<char>,
    key: Seq<char>,
    required: bool,
    signature: SignatureReply,
)
    requires
        release_error(tag, signature_name, tarball, checksum_file, key, required, signature) is None,
    ensures
        words(checksum_file).len() > 0,
        sha256_text(tarball) == lower_ascii(words(checksum_file)[0]),
        signature matches SignatureReply::Fetched(s) ==> signature_verifies(key, tarball, s@),
        required ==> !(signature is Missing),
{
}

// ---------------------------------------------------------------------------
// Release notes

/// The lines of the text, each with the prefix before it.
pub fn indent_lines(s: &str, prefix: &str) -> (r: String)
    ensures
        r@ == joined(lines_of(s@).map_values(|l: Seq<char>| prefix@ + l), "\n"@),
{
    let all = lines(s);
    let ghost want = lines_of(s@).map_values(|l: Seq<char>| prefix@ + l);
    let mut out: Vec<String> = Vec::new();
    let mut i: usize = 0;
    while i < all.len()
        invariant
            i <= all.len(),
            texts(all@) == lines_of(s@),
            want == lines_of(s@).map_values(|l: Seq<char>| prefix@ + l),
            out@.len() == i,
            forall|j: int| 0 <= j < i ==> (#[trigger] out@[j])@ == want[j],
        decreases all.len() - i,
    {
        assert(texts(all@)[i as int] == all@[i as int]@);
        out.push(glue(prefix, all[i].as_str()));
        i = i + 1;
    }
    assert(texts(all@).len() == all@.len());
    assert(texts(out@) =~= want);
    join(&out, "\n")
}

/// What is told of a release once it is installed; nothing where it has no notes.
pub fn release_notes(version: &str, body: Option<&str>, repository: &str) -> (r: Option<String>)
    ensures
        match r {
            Some(t) => body is Some && trimmed(body->0@).len() > 0 && t@ == joined(
                seq![
                    ""@,
                    "🎉 finance-cli updated to v"@ + version@,
                    ""@,
                    joined(
                        lines_of(trimmed(body->0@)).map_values(|l: Seq<char>| "  "@ + l),
                        "\n"@,
                    ),
                    ""@,
                    "  Full release notes: "@ + repository@ + "/releases/tag/v"@ + version@,
                    ""@,
                ],
                "\n"@,
            ),
            None => body is None || trimmed(body->0@).len() == 0,
        },
{
    let text = match body {
        Some(b) => b,
        None => {
            return None;
        },
    };
    if is_blank(text) {
        return None;
    }
    let trimmed_body = trim(text);
    let mut out: Vec<String> = Vec::new();
    push_text(&mut out, "".to_string());
    push_text(&mut out, glue("🎉 finance-cli updated to v", version));
    push_text(&mut out, "".to_string());
    push_text(&mut out, indent_lines(trimmed_body.as_str(), "  "));
    push_text(&mut out, "".to_string());
    let head = glue3("  Full release notes: ", repository, "/releases/tag/v");
    push_text(&mut out, glue(head.as_str(), version));
    push_text(&mut out, "".to_string());
    proof {
        assert(texts(out@) =~= seq![
            ""@,
            "🎉 finance-cli updated to v"@ + version@,
            ""@,
            joined(lines_of(trimmed(text@)).map_values(|l: Seq<char>| "  "@ + l), "\n"@),
            ""@,
            "  Full release notes: "@ + repository@ + "/releases/tag/v"@ + version@,
            ""@,
        ]);
    }
    Some(join(&out, "\n"))
}

/// What the program is asked to do about itself.
#[derive(Clone, Copy, Debug, PartialEq, Eq, Structural)]
pub enum SelfCommand {
    /// Tell the running version, the latest one, and whether there is an update.
    Check,
    /// Fetch and install the latest release, then start it.
    Update,
}

/// How long the check for updates rests after it ran, in seconds.
pub const CHECK_INTERVAL_SECONDS: i64 = 86_400;

/// Whether a check for updates is due: none ran yet, or a day passed since.
pub fn check_is_due(last_check: Option<i64>, now: i64) -> (r: bool)
    ensures
        r == (match last_check {
            Some(t) => now - t >= CHECK_INTERVAL_SECONDS,
            None => true,
        }),
{
    match last_check {
        Some(t) => (now as i128) - (t as i128) >= CHECK_INTERVAL_SECONDS as i128,
        None => true,
    }
}

} // verus!
