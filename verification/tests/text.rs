use classfile::constant_pool::{resolve_utf8, ConstantPoolInfo, ConstantUtf8Info};

fn value_of(bytes: Vec<u8>) -> String {
    let length = bytes.len() as u16;
    ConstantUtf8Info { length, bytes }.value()
}

#[test]
fn ascii_text_decodes_to_itself() {
    assert_eq!(value_of(b"Hello".to_vec()), "Hello");
    assert_eq!(value_of(Vec::new()), "");
}

#[test]
fn two_byte_sequences_decode_to_one_scalar() {
    assert_eq!(value_of(vec![0xC3, 0xA9]), "\u{e9}");
    assert_eq!(value_of(vec![0xC3, 0xA9]).chars().count(), 1);
}

#[test]
fn three_byte_sequences_decode_to_one_scalar() {
    assert_eq!(value_of(vec![0xE2, 0x82, 0xAC]), "\u{20ac}");
}

#[test]
fn the_overlong_nul_of_the_format_is_accepted() {
    // The format writes NUL as the overlong pair C0 80; the permissive decoder
    // accepts it as the scalar it spells rather than an error.
    assert_eq!(value_of(vec![0xC0, 0x80]), "\u{0}");
    assert_eq!(value_of(vec![b'a', 0xC0, 0x80, b'b']), "a\u{0}b");
}

#[test]
fn surrogate_code_points_become_the_replacement_character() {
    assert_eq!(value_of(vec![0xED, 0xA0, 0x80]), "\u{fffd}");
    // A surrogate pair written as two triples stays two replacement
    // characters: the decoder does not combine pairs.
    assert_eq!(
        value_of(vec![0xED, 0xA0, 0xBD, 0xED, 0xB8, 0x80]),
        "\u{fffd}\u{fffd}"
    );
}

#[test]
fn ill_formed_bytes_become_the_replacement_character() {
    assert_eq!(value_of(vec![0xFF]), "\u{fffd}");
    assert_eq!(value_of(vec![0x80]), "\u{fffd}");
    assert_eq!(value_of(vec![0xC3]), "\u{fffd}");
    assert_eq!(value_of(vec![0xE2, 0x82]), "\u{fffd}\u{fffd}");
    assert_eq!(value_of(vec![0xC3, b'a']), "\u{fffd}a");
}

#[test]
fn resolution_decodes_the_entry_bytes_not_their_raw_form() {
    let pool = vec![
        ConstantPoolInfo::Unknown,
        ConstantPoolInfo::Utf8(ConstantUtf8Info {
            length: 2,
            bytes: vec![0xC0, 0x80],
        }),
    ];
    assert_eq!(resolve_utf8(&pool, 1), Ok("\u{0}".to_string()));
}
