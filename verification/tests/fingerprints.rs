use sheet_search::fingerprint::{generate_file_hash, hex_encode, is_file_changed, needs_import};

#[test]
fn md5_of_known_inputs() {
    assert_eq!(generate_file_hash(b""), "d41d8cd98f00b204e9800998ecf8427e");
    assert_eq!(generate_file_hash(b"abc"), "900150983cd24fb0d6963f7d28e17f72");
    assert_eq!(
        generate_file_hash(b"abcdefghijklmnopqrstuvwxyz"),
        "c3fcd3d76192e4007dfb496cca67e13b"
    );
}

#[test]
fn fingerprint_is_what_the_digest_formats_to() {
    for data in [&b"x"[..], &b"hello world"[..], &[0u8, 255, 16, 1][..]] {
        assert_eq!(generate_file_hash(data), format!("{:x}", md5::compute(data)));
    }
}

#[test]
fn distinct_contents_have_distinct_fingerprints() {
    let mut seen = std::collections::HashSet::new();
    for i in 0u32..2000 {
        let mut content = i.to_le_bytes().to_vec();
        content.extend_from_slice(b"spreadsheet bytes");
        assert!(seen.insert(generate_file_hash(&content)), "collision at {}", i);
    }
    for n in 0usize..200 {
        assert!(seen.insert(generate_file_hash(&vec![7u8; n])), "collision at length {}", n);
    }
}

#[test]
fn equal_contents_have_equal_fingerprints() {
    assert_eq!(generate_file_hash(b"same"), generate_file_hash(&b"same".to_vec()));
}

#[test]
fn hex_encode_writes_two_lower_case_digits_per_byte() {
    assert_eq!(hex_encode(&vec![]), "");
    assert_eq!(hex_encode(&vec![0x00, 0x0f, 0xa0, 0xff, 0x12]), "000fa0ff12");
}

#[test]
fn file_is_changed_when_nothing_or_something_else_is_stored() {
    assert!(is_file_changed(None, "abc"));
    assert!(is_file_changed(Some("abd"), "abc"));
    assert!(!is_file_changed(Some("abc"), "abc"));
}

#[test]
fn import_is_needed_when_forced_changed_or_unchecked() {
    assert!(needs_import(true, Some(false)));
    assert!(needs_import(true, Some(true)));
    assert!(needs_import(true, None));
    assert!(needs_import(false, Some(true)));
    assert!(needs_import(false, None));
    assert!(!needs_import(false, Some(false)));
}

fn bytes_of(hex: &str) -> Vec<u8> {
    let digits: Vec<u8> = hex.bytes().filter(|b| !b.is_ascii_whitespace()).collect();
    digits
        .chunks(2)
        .map(|pair| u8::from_str_radix(std::str::from_utf8(pair).unwrap(), 16).unwrap())
        .collect()
}

#[test]
fn contents_with_the_same_digest_share_a_fingerprint() {
    let first = bytes_of(
        "d131dd02c5e6eec4 693d9a0698aff95c 2fcab58712467eab 4004583eb8fb7f89
         55ad340609f4b302 83e488832571415a 085125e8f7cdc99f d91dbdf280373c5b
         d8823e3156348f5b ae6dacd436c919c6 dd53e2b487da03fd 02396306d248cda0
         e99f33420f577ee8 ce54b67080a80d1e c69821bcb6a88393 96f9652b6ff72a70",
    );
    let second = bytes_of(
        "d131dd02c5e6eec4 693d9a0698aff95c 2fcab50712467eab 4004583eb8fb7f89
         55ad340609f4b302 83e4888325f1415a 085125e8f7cdc99f d91dbd7280373c5b
         d8823e3156348f5b ae6dacd436c919c6 dd53e23487da03fd 02396306d248cda0
         e99f33420f577ee8 ce54b67080280d1e c69821bcb6a88393 96f965ab6ff72a70",
    );
    assert_eq!(first.len(), 128);
    assert_eq!(second.len(), 128);
    assert_ne!(first, second);
    assert_eq!(generate_file_hash(&first), "79054025255fb1a26e4bc422aef54eb4");
    assert_eq!(generate_file_hash(&second), "79054025255fb1a26e4bc422aef54eb4");
}
