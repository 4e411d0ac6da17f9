use vix::protocol::{Blake3Hash, ContentHash, ExecArgValue, ExecPath, ExecProgram, ExecText, ExecTree, NodeHash};

#[test]
fn blake3_hash_hex_round_trips() {
    let hash = Blake3Hash::from_bytes(b"exec protocol");
    assert_eq!(Blake3Hash::from_hex(&hash.to_hex()), Some(hash));
    assert_eq!(hash.short_hex(), &hash.to_hex()[..16]);
}

#[test]
fn typed_hashes_decode_from_hex() {
    let hash = Blake3Hash::from_bytes(b"typed");
    assert_eq!(
        ContentHash::from_hex(&hash.to_hex()),
        Some(ContentHash(hash))
    );
    assert_eq!(NodeHash::from_hex(&hash.to_hex()), Some(NodeHash(hash)));
    assert_eq!(Blake3Hash::from_hex("not hex"), None);
}

#[test]
fn exec_tree_preserves_text_and_binary_bytes() {
    let mut tree = ExecTree::default();
    tree.insert_bytes("text.txt", b"hello".to_vec());
    tree.insert_bytes("binary.bin", vec![0xff, 0x00]);
    assert_eq!(tree.bytes("text.txt"), Some(b"hello".to_vec()));
    assert_eq!(tree.bytes("binary.bin"), Some(vec![0xff, 0x00]));
}

#[test]
fn hex_spelling_is_lowercase_two_digits_per_byte() {
    let mut bytes = [0u8; 32];
    bytes[0] = 0x0f;
    bytes[1] = 0xa0;
    bytes[31] = 0xff;
    let hash = Blake3Hash(bytes);
    let hex = hash.to_hex();
    assert_eq!(hex.len(), 64);
    assert!(hex.starts_with("0fa0"));
    assert!(hex.ends_with("ff"));
    assert_eq!(hash.short_hex(), "0fa0000000000000");
}

#[test]
fn from_hex_reads_either_case_and_a_plus_sign() {
    let upper = "0FA0".to_string() + &"00".repeat(29) + "FF";
    let parsed = Blake3Hash::from_hex(&upper).expect("uppercase digits parse");
    assert_eq!(parsed.0[0], 0x0f);
    assert_eq!(parsed.0[1], 0xa0);
    assert_eq!(parsed.0[31], 0xff);
    // A two-character chunk is read in base 16 with an optional sign.
    let signed = "+f".to_string() + &"00".repeat(31);
    assert_eq!(Blake3Hash::from_hex(&signed).expect("signed chunk").0[0], 0x0f);
    assert_eq!(Blake3Hash::from_hex(&("-1".to_string() + &"00".repeat(31))), None);
    assert_eq!(Blake3Hash::from_hex(&"0".repeat(63)), None);
    assert_eq!(Blake3Hash::from_hex(&("zz".to_string() + &"00".repeat(31))), None);
    assert_eq!(Blake3Hash::from_hex(&("é".to_string() + &"00".repeat(31))), None);
}

#[test]
fn known_blake3_digest() {
    let hash = Blake3Hash::from_bytes(b"");
    assert_eq!(
        hash.to_hex(),
        "af1349b9f5f9a1a6a0404dea36dcc9499bcb25c9adc112b7cc9a93cae41f3262"
    );
}

#[test]
fn exec_tree_reads_text_before_blobs() {
    let mut tree = ExecTree::default();
    tree.insert_bytes("x", b"text".to_vec());
    tree.insert_bytes("x", vec![0xff]);
    // The stale text entry wins over the later blob at the same path.
    assert_eq!(tree.bytes("x"), Some(b"text".to_vec()));
    assert_eq!(tree.bytes("missing"), None);
}

#[test]
fn text_newtypes_wrap_their_string() {
    assert_eq!(ExecPath::from("src/a.c".to_string()).as_str(), "src/a.c");
    assert_eq!(ExecProgram::from("cc".to_string()).as_str(), "cc");
    assert_eq!(ExecArgValue::from("-O2".to_string()).as_str(), "-O2");
    assert_eq!(ExecText::from("body".to_string()).as_str(), "body");
}
