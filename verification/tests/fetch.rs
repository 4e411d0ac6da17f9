use vix::exec::Tree;
use vix::fetch::{sha256_hex, FakeFetchBackend, FetchBackend, NoFetchBackend};

const ABC_SHA256: &str = "ba7816bf8f01cfea414140de5dae2223b00361a396177a9cb410ff61f20015ad";

#[test]
fn sha256_hex_is_lowercase_digest() {
    assert_eq!(sha256_hex(b"abc"), ABC_SHA256);
    assert_eq!(
        sha256_hex(b""),
        "e3b0c44298fc1c149afbf4c8996fb92427ae41e4649b934ca495991b7852b855"
    );
}

#[test]
fn no_backend_refuses_every_fetch() {
    let err = NoFetchBackend.fetch("https://example.org/a.tar", None).err();
    assert_eq!(err, Some("no fetch backend configured for `https://example.org/a.tar`".to_string()));
    let err = NoFetchBackend.fetch("u", Some(ABC_SHA256)).err();
    assert_eq!(err, Some("no fetch backend configured for `u`".to_string()));
}

#[test]
fn fake_backend_serves_checked_archives() {
    let backend = FakeFetchBackend::new().with_archive("https://x/a", b"abc", Tree::of(&[("README", "hi")]));
    let out = backend.fetch("https://x/a", Some(ABC_SHA256)).expect("checksum matches");
    assert_eq!(out.actual_sha256, ABC_SHA256);
    assert_eq!(out.tree.bytes("README"), Some(b"hi".to_vec()));
    let unchecked = backend.fetch("https://x/a", None).expect("no expectation");
    assert_eq!(unchecked.actual_sha256, ABC_SHA256);
}

#[test]
fn fake_backend_reports_mismatch_and_unknown_url() {
    let mut backend = FakeFetchBackend::default();
    backend.insert_archive("https://x/a", b"abc", Tree::empty());
    assert_eq!(
        backend.fetch("https://x/a", Some("00")).err(),
        Some(format!("fetch checksum mismatch for `https://x/a`: expected 00, got {ABC_SHA256}"))
    );
    assert_eq!(
        backend.fetch("https://x/b", None).err(),
        Some("fake fetch has no archive for `https://x/b`".to_string())
    );
}

#[test]
fn fake_backend_replaces_an_archive() {
    let mut backend = FakeFetchBackend::new();
    backend.insert_archive("u", b"old", Tree::of(&[("v", "1")]));
    backend.insert_archive("u", b"abc", Tree::of(&[("v", "2")]));
    let out = backend.fetch("u", Some(ABC_SHA256)).expect("replaced");
    assert_eq!(out.tree.bytes("v"), Some(b"2".to_vec()));
}
