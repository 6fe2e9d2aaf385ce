use phai::update::{
    check_is_due, decide_update, extract_binary, find_asset, indent_lines, install_note, is_newer, parse_sha256,
    parse_version, plan_check, release_notes, should_run_auto_check, signature_step,
    strip_tag_prefix, take_program, unpack_release, validate_tarball_sha256,
    verify_minisign_signature, ArchiveEntry, ArchiveFailure, CheckNote, FetchReply, GitHubAsset, GitHubRelease,
    SemVer, SignatureReply, SignatureStep, UpdateDecision,
};
use sha2::{Digest, Sha256};

fn build_tarball(entries: &[(&str, &[u8])]) -> Vec<u8> {
    let buf = Vec::new();
    let enc = flate2::write::GzEncoder::new(buf, flate2::Compression::default());
    let mut builder = tar::Builder::new(enc);
    for (name, data) in entries {
        let mut header = tar::Header::new_gnu();
        header.set_size(data.len() as u64);
        header.set_mode(0o755);
        header.as_gnu_mut().unwrap().name[..name.len()].copy_from_slice(name.as_bytes());
        header.set_cksum();
        builder
            .append(&header, std::io::Cursor::new(data))
            .expect("append should not fail");
    }
    let enc = builder.into_inner().expect("into_inner should not fail");
    enc.finish().expect("gz finish should not fail")
}

fn sha256_hex(data: &[u8]) -> String {
    let mut h = Sha256::new();
    h.update(data);
    format!("{:x}", h.finalize())
}

fn ver(s: &str) -> SemVer {
    parse_version(s).ok().unwrap()
}

#[test]
fn strip_tag_prefix_lowercase_v() {
    assert_eq!(strip_tag_prefix("v0.3.1"), "0.3.1");
}

#[test]
fn strip_tag_prefix_uppercase_v() {
    assert_eq!(strip_tag_prefix("V0.3.1"), "0.3.1");
}

#[test]
fn strip_tag_prefix_component_prefix() {
    assert_eq!(strip_tag_prefix("finance-cli-v0.3.1"), "0.3.1");
}

#[test]
fn strip_tag_prefix_no_prefix() {
    assert_eq!(strip_tag_prefix("0.3.1"), "0.3.1");
}

#[test]
fn strip_tag_prefix_empty() {
    assert_eq!(strip_tag_prefix(""), "");
}

#[test]
fn strip_tag_prefix_component_only_no_v() {
    assert_eq!(strip_tag_prefix("finance-cli-0.3.1"), "0.3.1");
}

#[test]
fn strip_tag_prefix_repeated() {
    assert_eq!(strip_tag_prefix("finance-cli-finance-cli-vvV1.0.0"), "1.0.0");
    assert_eq!(strip_tag_prefix("Vv1.0.0"), "v1.0.0");
}

#[test]
fn parse_version_valid() {
    let v = parse_version("0.3.1").ok().unwrap();
    assert_eq!(v.major, 0);
    assert_eq!(v.minor, 3);
    assert_eq!(v.patch, 1);
    assert!(v.pre.is_none());
}

#[test]
fn parse_version_pre_release() {
    let v = parse_version("0.3.1-rc1").ok().unwrap();
    assert_eq!(v.patch, 1);
    assert_eq!(v.pre.as_deref(), Some("rc1"));
}

#[test]
fn parse_version_malformed_alpha() {
    assert!(parse_version("abc").is_err());
}

#[test]
fn parse_version_only_two_parts() {
    assert!(parse_version("0.3").is_err());
}

#[test]
fn parse_version_four_parts() {
    assert!(parse_version("0.3.1.4").is_err());
}

#[test]
fn parse_version_empty_string() {
    assert!(parse_version("").is_err());
}

#[test]
fn parse_version_whitespace_trimmed() {
    let v = parse_version("  1.2.3  ").ok().unwrap();
    assert_eq!(v.major, 1);
    assert_eq!(v.minor, 2);
    assert_eq!(v.patch, 3);
}

#[test]
fn parse_version_messages() {
    assert_eq!(
        parse_version(" 1.2 ").err().unwrap(),
        "version must be MAJOR.MINOR.PATCH, got: 1.2"
    );
    assert_eq!(
        parse_version("x.2.3").err().unwrap(),
        "invalid major version: x"
    );
    assert_eq!(
        parse_version("1..3").err().unwrap(),
        "invalid minor version: "
    );
    assert_eq!(
        parse_version("1.2.99999999999999999999").err().unwrap(),
        "invalid patch version: 99999999999999999999"
    );
}

#[test]
fn is_newer_equal_versions() {
    assert!(!is_newer(&ver("1.0.0"), &ver("1.0.0")));
}

#[test]
fn is_newer_newer_patch() {
    assert!(is_newer(&ver("1.0.2"), &ver("1.0.1")));
}

#[test]
fn is_newer_older_patch() {
    assert!(!is_newer(&ver("1.0.0"), &ver("1.0.1")));
}

#[test]
fn is_newer_newer_minor() {
    assert!(is_newer(&ver("1.1.0"), &ver("1.0.9")));
}

#[test]
fn is_newer_newer_major() {
    assert!(is_newer(&ver("2.0.0"), &ver("1.9.9")));
}

#[test]
fn is_newer_release_beats_pre_release() {
    assert!(is_newer(&ver("1.0.0"), &ver("1.0.0-rc1")));
}

#[test]
fn is_newer_pre_release_does_not_beat_release() {
    assert!(!is_newer(&ver("1.0.0-rc1"), &ver("1.0.0")));
}

#[test]
fn is_newer_later_pre_release_beats_earlier() {
    assert!(is_newer(&ver("1.0.0-rc2"), &ver("1.0.0-rc1")));
}

#[test]
fn newer_is_transitive_on_a_chain() {
    let chain = ["1.0.0-rc1", "1.0.0-rc2", "1.0.0", "1.0.1", "1.2.0", "2.0.0-a"];
    for i in 0..chain.len() {
        for j in 0..chain.len() {
            assert_eq!(is_newer(&ver(chain[j]), &ver(chain[i])), j > i);
        }
    }
}

#[test]
fn parse_sha256_valid_with_filename() {
    let hex = "a".repeat(64);
    let input = format!("{}  somefile.tar.gz", hex);
    let result = parse_sha256(&input).unwrap();
    assert_eq!(result, hex);
}

#[test]
fn parse_sha256_bare_hex() {
    let hex = "b".repeat(64);
    let result = parse_sha256(&hex).unwrap();
    assert_eq!(result, hex);
}

#[test]
fn parse_sha256_too_short() {
    assert!(parse_sha256("abc123").is_err());
}

#[test]
fn parse_sha256_non_hex_chars() {
    let bad = "z".repeat(64);
    assert!(parse_sha256(&bad).is_err());
}

#[test]
fn parse_sha256_empty() {
    assert!(parse_sha256("").is_err());
    assert_eq!(parse_sha256(" \n").unwrap_err(), "empty checksum file");
}

#[test]
fn parse_sha256_uppercase_normalized() {
    let upper = "A".repeat(64);
    let result = parse_sha256(&upper).unwrap();
    assert_eq!(result, "a".repeat(64));
}

#[test]
fn validate_sha256_matching() {
    let data = b"hello world";
    let hex = sha256_hex(data);
    validate_tarball_sha256(data, &hex).unwrap();
    assert!(validate_tarball_sha256(
        data,
        "b94d27b9934d3e08a52e52d7da7dabfac484efe37a5380ee9088f7ace2efcde9"
    )
    .is_ok());
}

#[test]
fn validate_sha256_mismatch() {
    let data = b"hello world";
    let wrong = "0".repeat(64);
    assert!(validate_tarball_sha256(data, &wrong).is_err());
}

#[test]
fn extract_binary_rejects_path_traversal() {
    let tarball = build_tarball(&[("../evil", b"evil content")]);
    let result = extract_binary(&tarball);
    assert!(result.is_err(), "expected path traversal to be rejected");
    let msg = result.err().unwrap();
    assert!(
        msg.contains("path traversal") || msg.contains("outside"),
        "unexpected error: {msg}"
    );
}

#[test]
fn extract_binary_happy_path() {
    let binary_data = b"fake binary content";
    let tarball = build_tarball(&[("fin", binary_data)]);
    let extracted = extract_binary(&tarball).unwrap();
    assert_eq!(extracted.path, "fin");
    assert_eq!(extracted.contents, binary_data);
}

#[test]
fn extract_binary_takes_the_last_program() {
    let tarball = build_tarball(&[("fin", b"one"), ("README", b"x"), ("fin", b"two")]);
    assert_eq!(extract_binary(&tarball).unwrap().contents, b"two");
}

#[test]
fn extract_binary_without_program() {
    let tarball = build_tarball(&[("other", b"one"), ("bin/fin", b"two")]);
    assert_eq!(
        extract_binary(&tarball).err().unwrap(),
        "executable 'fin' not found in tarball"
    );
    assert_eq!(
        extract_binary(b"no archive at all").err().unwrap(),
        "failed to read tarball entry"
    );
}

fn entry(path: &str, flag: u8, size: u64, contents: &[u8]) -> ArchiveEntry {
    let mut header = tar::Header::new_ustar();
    header.set_entry_type(tar::EntryType::new(flag));
    ArchiveEntry {
        path: path.to_string(),
        header: header.as_bytes().to_vec(),
        size,
        contents: contents.to_vec(),
    }
}

#[test]
fn extract_binary_takes_whatever_bears_the_name() {
    let mut header = tar::Header::new_gnu();
    header.set_entry_type(tar::EntryType::Directory);
    header.set_size(0);
    header.set_mode(0o755);
    header.set_cksum();
    let gz = flate2::write::GzEncoder::new(Vec::new(), flate2::Compression::default());
    let mut builder = tar::Builder::new(gz);
    builder.append_data(&mut header, "fin", &b""[..]).unwrap();
    let tarball = builder.into_inner().unwrap().finish().unwrap();
    let taken = extract_binary(&tarball).unwrap();
    assert_eq!((taken.path.as_str(), taken.header[156], taken.is_file()), ("fin", b'5', false));
    let both = vec![entry("fin", b'0', 1, &[3]), entry("fin", b'2', 0, &[])];
    assert_eq!(take_program(both, None).unwrap().header[156], b'2');
}

#[test]
fn extract_binary_tells_what_failed() {
    // A header that promises ten bytes, with four behind it.
    let mut header = tar::Header::new_ustar();
    header.set_path("fin").unwrap();
    header.set_size(10);
    header.set_mode(0o755);
    header.set_cksum();
    let mut raw = header.as_bytes().to_vec();
    raw.extend_from_slice(b"four");
    let mut gz = flate2::write::GzEncoder::new(Vec::new(), flate2::Compression::default());
    std::io::Write::write_all(&mut gz, &raw).unwrap();
    let cut = gz.finish().unwrap();
    assert_eq!(extract_binary(&cut).err().unwrap(), "failed to unpack tarball entry");
    let whole = build_tarball(&[("fin", b"one")]);
    assert_eq!(
        extract_binary(&whole[..whole.len() / 2]).err().unwrap(),
        "failed to read tarball entry"
    );
    let fail = |f: ArchiveFailure| take_program(vec![entry("fin", b'0', 1, &[3])], Some(f)).err();
    assert_eq!(fail(ArchiveFailure::Entries).unwrap(), "failed to iterate tarball entries");
    assert_eq!(fail(ArchiveFailure::Entry).unwrap(), "failed to read tarball entry");
    assert_eq!(fail(ArchiveFailure::Path).unwrap(), "failed to read entry path");
    // The first entry that cannot be unpacked decides, before any later failure.
    let out_first = vec![entry("../x", b'0', 9, &[]), entry("fin", b'0', 9, &[])];
    assert_eq!(
        take_program(out_first, Some(ArchiveFailure::Entry)).err().unwrap(),
        "path traversal rejected: ../x resolves outside temp dir"
    );
    let cut_first = vec![entry("fin", b'0', 9, &[]), entry("../x", b'0', 0, &[])];
    assert_eq!(
        take_program(cut_first, None).err().unwrap(),
        "failed to unpack tarball entry"
    );
    // A directory, a nameless entry and an older header's directory write no file.
    assert!(take_program(vec![entry("fin", b'5', 9, &[])], None).is_ok());
    let mut old = entry("fin/", b'0', 9, &[]);
    assert!(old.is_file());
    old.header = tar::Header::new_gnu().as_bytes().to_vec();
    assert!(!old.is_file());
    assert!(take_program(vec![entry("./", b'0', 9, &[]), old], None).is_ok());
}

#[test]
fn take_program_refuses_absolute_paths() {
    let entries = vec![entry("fin", b'0', 1, &[1]), entry("/etc/passwd", b'0', 1, &[2])];
    assert_eq!(
        take_program(entries, None).err().unwrap(),
        "path traversal rejected: /etc/passwd resolves outside temp dir"
    );
    assert_eq!(take_program(vec![entry("fin/.", b'0', 1, &[7])], None).unwrap().contents, vec![7]);
}

#[test]
fn indent_lines_prefixes_each_line() {
    let input = "line one\nline two\nline three";
    assert_eq!(
        indent_lines(input, "  "),
        "  line one\n  line two\n  line three"
    );
}

#[test]
fn indent_lines_preserves_empty_lines() {
    let input = "a\n\nb";
    assert_eq!(indent_lines(input, ">"), ">a\n>\n>b");
}

#[test]
fn indent_lines_handles_single_line() {
    assert_eq!(indent_lines("just one", "..."), "...just one");
}

#[test]
fn indent_lines_handles_empty_string() {
    assert_eq!(indent_lines("", "  "), "");
}

fn release() -> GitHubRelease {
    GitHubRelease {
        tag_name: "v1.2.3".to_string(),
        html_url: String::new(),
        assets: vec![GitHubAsset {
            name: "a.tar.gz".to_string(),
            browser_download_url: "https://host/a".to_string(),
        }],
        body: None,
    }
}

#[test]
fn find_asset_by_name() {
    let r = release();
    assert_eq!(
        find_asset(&r, "a.tar.gz").ok().unwrap().browser_download_url,
        "https://host/a"
    );
    assert_eq!(
        find_asset(&r, "b").err().unwrap(),
        "asset 'b' not found in release v1.2.3"
    );
}

#[test]
fn decide_update_each_way() {
    assert!(matches!(
        decide_update("x", "v1.0.0"),
        UpdateDecision::MalformedCurrent
    ));
    match decide_update("1.0.0", "latest") {
        UpdateDecision::MalformedLatest(latest, why) => {
            assert_eq!(latest, "latest");
            assert_eq!(why, "version must be MAJOR.MINOR.PATCH, got: latest");
        }
        _ => panic!("malformed tag"),
    }
    assert!(matches!(
        decide_update("1.0.0", "v1.0.0"),
        UpdateDecision::UpToDate(_)
    ));
    match decide_update("1.0.0", "v1.0.1") {
        UpdateDecision::Available(latest) => assert_eq!(latest, "1.0.1"),
        _ => panic!("an update"),
    }
}

#[test]
fn auto_check_runs_only_when_wanted() {
    assert!(should_run_auto_check(false, None, "1.0.0", false).0);
    assert!(!should_run_auto_check(true, None, "1.0.0", false).0);
    assert!(!should_run_auto_check(false, None, "1.0.0", true).0);
    let (run, warning) = should_run_auto_check(false, Some("1.0.1"), "1.0.0", false);
    assert!(!run);
    assert!(warning.unwrap().contains("sentinel=1.0.1, binary=1.0.0"));
    assert!(should_run_auto_check(false, Some("1.0.0"), "1.0.0", false).1.is_none());
}

#[test]
fn signature_steps() {
    assert_eq!(signature_step(true, true, true), SignatureStep::Skip);
    assert_eq!(signature_step(false, true, false), SignatureStep::Verify);
    assert_eq!(signature_step(false, false, true), SignatureStep::Refuse);
    assert_eq!(signature_step(false, false, false), SignatureStep::ChecksumOnly);
}

const KEY: &str = "untrusted comment: key\nRWQf6LRCGA9i53mlYecO4IzT51TGPpvWucNSCh1CBM0QTaLn73Y7GFO3";

const SIGNATURE: &str = "untrusted comment: signature from minisign secret key\nRUQf6LRCGA9i559r3g7V1qNyJDApGip8MfqcadIgT9CuhV3EMhHoN1mGTkUidF/z7SrlQgXdy8ofjb7bNJJylDOocrCo8KLzZwo=\ntrusted comment: timestamp:1633700835\tfile:test\tprehashed\nwLMDjy9FLAuxZ3q4NlEvkgtyhrr0gtTu6KC4KBJdITbbOeAi1zBIYo0v4iTgt8jJpIidRJnp94ABQkJAgAooBQ==";

#[test]
fn signatures_are_verified() {
    assert!(verify_minisign_signature(KEY, b"test", SIGNATURE).is_ok());
    assert_eq!(
        verify_minisign_signature(KEY, b"Test", SIGNATURE).unwrap_err(),
        "release signature did not verify against the embedded public key"
    );
    assert_eq!(
        verify_minisign_signature("", b"test", SIGNATURE).unwrap_err(),
        "embedded signing public key failed to parse"
    );
    assert_eq!(
        verify_minisign_signature(KEY, b"test", "nothing").unwrap_err(),
        "release signature failed to parse"
    );
}

#[test]
fn unpack_release_checks_first() {
    let tarball = build_tarball(&[("fin", b"program")]);
    let sum = sha256_hex(&tarball);
    let ok = unpack_release("v1", "a.minisig", &tarball, &sum, "", false, &SignatureReply::Missing);
    assert_eq!(ok.unwrap().contents, b"program");
    let ok = unpack_release("v1", "a.minisig", &tarball, &sum, "", true, &SignatureReply::Skipped);
    assert_eq!(ok.unwrap().contents, b"program");
    let e = unpack_release("v1", "a.minisig", &tarball, &sum, "", true, &SignatureReply::Missing);
    assert_eq!(
        e.err().unwrap(),
        "release v1 does not ship a a.minisig sidecar; refusing to update without a verifiable signature"
    );
    let wrong = "0".repeat(64);
    let e = unpack_release("v1", "s", &tarball, &wrong, "", false, &SignatureReply::Missing);
    assert!(e.err().unwrap().starts_with("checksum mismatch: expected 0000"));
    let e = unpack_release(
        "v1",
        "s",
        &tarball,
        &sum,
        KEY,
        false,
        &SignatureReply::Fetched(SIGNATURE.to_string()),
    );
    assert!(e.is_err());
}

#[test]
fn release_notes_are_indented() {
    assert_eq!(
        release_notes("1.2.3", Some("\n# New\n* a\n"), "https://host").unwrap(),
        "\n🎉 finance-cli updated to v1.2.3\n\n  # New\n  * a\n\n  Full release notes: https://host/releases/tag/v1.2.3\n"
    );
    assert!(release_notes("1.2.3", Some("  "), "x").is_none());
    assert!(release_notes("1.2.3", None, "x").is_none());
}

#[test]
fn checks_rest_for_a_day() {
    assert!(check_is_due(None, 5));
    assert!(!check_is_due(Some(0), 86_399));
    assert!(check_is_due(Some(0), 86_400));
}

#[test]
fn checks_are_planned() {
    let release = |tag: &str| FetchReply::Release(tag.to_string());
    let newer = plan_check("1.0.0", &release("v1.1.0"), false);
    assert!(matches!(newer.note, CheckNote::Seen(v) if v == "1.1.0"));
    assert_eq!(newer.install.as_deref(), Some("1.1.0"));
    assert_eq!(
        newer.message.as_deref(),
        Some("finance-cli: update available: 1.0.0 → 1.1.0. Downloading...")
    );
    let forced = plan_check("1.0.0", &release("v1.1.0"), true);
    assert_eq!(
        forced.message.as_deref(),
        Some(
            "finance-cli: atualização disponível: 1.0.0 → 1.1.0. Atualizando antes de sincronizar..."
        )
    );
    let same = plan_check("1.1.0", &release("v1.1.0"), false);
    assert!(same.install.is_none() && same.message.is_none());
    let odd = plan_check("1.0.0", &release("v1.x"), false);
    assert!(matches!(
        odd.note,
        CheckNote::Failed(w)
            if w == "parse latest version '1.x': version must be MAJOR.MINOR.PATCH, got: 1.x"
    ));
    let broken = plan_check("abc", &release("v1.1.0"), false);
    assert!(matches!(broken.note, CheckNote::Failed(w) if w == "malformed current version: abc"));
    let slow = FetchReply::Transient("timeout".to_string());
    let later = plan_check("1.0.0", &slow, false);
    assert!(matches!(later.note, CheckNote::Failed(w) if w == "transient network error: timeout"));
    let gone = FetchReply::Failed("404".to_string());
    let gone_note = plan_check("1.0.0", &gone, false).note;
    assert!(matches!(gone_note, CheckNote::Failed(w) if w == "release fetch: 404"));
    let told = plan_check("1.0.0", &gone, true);
    assert!(matches!(told.note, CheckNote::Nothing));
    assert_eq!(
        told.message.as_deref(),
        Some("Warning: não foi possível verificar atualizações: 404")
    );
}

#[test]
fn failed_installs_are_noted() {
    assert!(matches!(
        install_note(Some("no space"), false),
        CheckNote::Failed(w) if w == "download/replace: no space"
    ));
    assert!(matches!(
        install_note(None, false),
        CheckNote::Failed(w) if w == "exec after update failed"
    ));
    assert!(matches!(install_note(Some("x"), true), CheckNote::Nothing));
}
