use pereplyot::cli::{parse_args, resolve_override, OverrideRequest, ParsedArgs};
use pereplyot::hash::content_hash;
use pereplyot::host::HostOverride;

fn args(a: &[&str]) -> Vec<String> {
    a.iter().map(|s| s.to_string()).collect()
}

#[test]
fn no_arguments_shows_the_launcher() {
    assert!(matches!(parse_args(&args(&[])), Ok(ParsedArgs::Launcher)));
}

#[test]
fn bare_file_opens_locally() {
    match parse_args(&args(&["book.pdf"])) {
        Ok(ParsedArgs::Open { file, host_override: None }) => assert_eq!(file, "book.pdf"),
        _ => panic!("expected a plain open"),
    }
}

#[test]
fn vault_and_key_open_for_a_vault() {
    match parse_args(&args(&["--vault=/home/u/vault", "--key=smith2020", "paper.pdf"])) {
        Ok(ParsedArgs::Open { file, host_override: Some(OverrideRequest::Vault { root, key }) }) => {
            assert_eq!(file, "paper.pdf");
            assert_eq!(root, "/home/u/vault");
            assert_eq!(key, "smith2020");
        }
        _ => panic!("expected a vault open"),
    }
}

#[test]
fn annotations_file_with_and_without_progress_file() {
    match parse_args(&args(&["--annotations-file=/a.json", "--progress-file=/p.json", "m.epub"])) {
        Ok(ParsedArgs::Open {
            file,
            host_override: Some(OverrideRequest::ExternalPaths { annotations, progress }),
        }) => {
            assert_eq!(file, "m.epub");
            assert_eq!(annotations, "/a.json");
            assert_eq!(progress.as_deref(), Some("/p.json"));
        }
        _ => panic!("expected explicit paths"),
    }
    match parse_args(&args(&["m.epub", "--annotations-file=/a.json"])) {
        Ok(ParsedArgs::Open { host_override: Some(OverrideRequest::ExternalPaths { progress, .. }), .. }) => {
            assert!(progress.is_none())
        }
        _ => panic!("expected explicit paths"),
    }
}

#[test]
fn later_option_wins() {
    match parse_args(&args(&["--key=a", "--vault=/v", "--key=b", "f"])) {
        Ok(ParsedArgs::Open { host_override: Some(OverrideRequest::Vault { key, .. }), .. }) => assert_eq!(key, "b"),
        _ => panic!("expected a vault open"),
    }
}

#[test]
fn unknown_option_is_an_error() {
    assert_eq!(parse_args(&args(&["--verbose", "f.pdf"])).err(), Some("Unknown option: --verbose".to_string()));
    assert_eq!(parse_args(&args(&["--vault", "f.pdf"])).err(), Some("Unknown option: --vault".to_string()));
}

#[test]
fn second_file_is_an_error() {
    assert_eq!(
        parse_args(&args(&["a.pdf", "b.pdf"])).err(),
        Some("Unexpected extra argument: b.pdf".to_string())
    );
}

#[test]
fn options_without_file_are_an_error() {
    assert_eq!(
        parse_args(&args(&["--vault=/v", "--key=k"])).err(),
        Some("A file argument is required alongside --vault/--key/--annotations-file".to_string())
    );
    assert_eq!(
        parse_args(&args(&["--progress-file=/p"])).err(),
        Some("A file argument is required alongside --vault/--key/--annotations-file".to_string())
    );
}

#[test]
fn mixing_modes_is_an_error() {
    let mix = Some(
        "Pass either --vault with --key, or --annotations-file (optionally with --progress-file), not a mix"
            .to_string(),
    );
    assert_eq!(parse_args(&args(&["--vault=/v", "f"])).err(), mix);
    assert_eq!(parse_args(&args(&["--vault=/v", "--key=k", "--annotations-file=/a", "f"])).err(), mix);
    assert_eq!(parse_args(&args(&["--progress-file=/p", "f"])).err(), mix);
}

#[test]
fn first_error_wins() {
    assert_eq!(parse_args(&args(&["a", "--x", "b"])).err(), Some("Unknown option: --x".to_string()));
}

#[test]
fn content_hash_is_blake3_hex() {
    assert_eq!(content_hash(b""), "af1349b9f5f9a1a6a0404dea36dcc9499bcb25c9adc112b7cc9a93cae41f3262");
    assert_eq!(content_hash(b"abc"), "6437b3ac38465133ffb63b75273a8db548c558465d79db03fd359c6cd5bd9d85");
}

#[test]
fn override_carries_the_hash() {
    let h = content_hash(b"abc");
    match resolve_override(OverrideRequest::Vault { root: "/v".into(), key: "k".into() }, h.clone()) {
        HostOverride::Vault { root, key, hash } => {
            assert_eq!(root, "/v");
            assert_eq!(key, "k");
            assert_eq!(hash, h);
        }
        _ => panic!("expected a vault override"),
    }
    let o = resolve_override(
        OverrideRequest::ExternalPaths { annotations: "/a".into(), progress: None },
        "abc".into(),
    );
    assert_eq!(o.hash(), "abc");
}
