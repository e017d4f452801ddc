use bson_size::bson_size;
use bson_size::get_cstring;
use bson_size::SizeError;
use bson_size::SizeTable;

fn path(parts: &[&str]) -> Vec<String> {
    parts.iter().map(|s| s.to_string()).collect()
}

fn must_parse(doc: &[u8]) -> SizeTable {
    match bson_size(doc) {
        Ok(t) => t,
        Err(_) => panic!("expected a well-formed document"),
    }
}

fn fixture() -> Vec<u8> {
    vec![
        0x21, 0x00, 0x00, 0x00,             // Document size
        0x08, 0x66, 0x6f, 0x6f, 0x00, 0x01, // "foo" => true
        0x08, 0x62, 0x61, 0x72, 0x00, 0x00, // "bar" => false
        0x03, 0x62, 0x61, 0x7a, 0x00,       // "baz" => {
        0x0b, 0x00, 0x00, 0x00,
        0x08, 0x71, 0x75, 0x78, 0x00, 0x01, //   "qux" => true }
        0x00,
        0x00                                // Document end
    ]
}

#[test]
fn test_sizes() {
    let doc = fixture();
    let table = must_parse(&doc);
    assert_eq!(table.len(), 5);
    assert_eq!(table.get(&path(&["root"])), Some(0x21));
    assert_eq!(table.get(&path(&["root", "foo"])), Some(0x06));
    assert_eq!(table.get(&path(&["root", "bar"])), Some(0x06));
    assert_eq!(table.get(&path(&["root", "baz"])), Some(0x10));
    assert_eq!(table.get(&path(&["root", "baz", "qux"])), Some(0x06));
}

#[test]
fn test_root_size_is_header_plus_elements_plus_terminator() {
    let doc = fixture();
    let table = must_parse(&doc);
    let root = table.get(&path(&["root"])).unwrap_or(0);
    let foo = table.get(&path(&["root", "foo"])).unwrap_or(0);
    let bar = table.get(&path(&["root", "bar"])).unwrap_or(0);
    let baz = table.get(&path(&["root", "baz"])).unwrap_or(0);
    assert_eq!(root, 4 + foo + bar + baz + 1);
    assert_eq!(root, 0x21); // the declared length header
}

#[test]
fn test_entry_count_is_one_plus_field_count() {
    let doc = fixture();
    let table = must_parse(&doc);
    // four fields at every nesting depth, plus the root entry
    assert_eq!(table.len(), 1 + 4);
}

#[test]
fn test_idempotent() {
    let doc = fixture();
    let t1 = must_parse(&doc);
    let t2 = must_parse(&doc);
    assert_eq!(t1.len(), t2.len());
    let paths = [
        path(&["root"]),
        path(&["root", "foo"]),
        path(&["root", "bar"]),
        path(&["root", "baz"]),
        path(&["root", "baz", "qux"]),
    ];
    for p in paths.iter() {
        assert_eq!(t1.get(p), t2.get(p));
    }
}

#[test]
fn test_empty_document() {
    let doc = vec![0x05, 0x00, 0x00, 0x00, 0x00];
    let table = must_parse(&doc);
    assert_eq!(table.len(), 1);
    assert_eq!(table.get(&path(&["root"])), Some(5));
}

#[test]
fn test_absent_path_is_not_found() {
    let doc = fixture();
    let table = must_parse(&doc);
    assert_eq!(table.get(&path(&["root", "nope"])), None);
    assert_eq!(table.get(&path(&["foo"])), None);
    assert_eq!(table.get(&path(&[])), None);
}

#[test]
fn test_truncated_name() {
    // the name "foo" never reaches a terminating zero byte
    let doc = vec![0x0b, 0x00, 0x00, 0x00, 0x08, 0x66, 0x6f, 0x6f];
    assert!(matches!(bson_size(&doc), Err(SizeError::TruncatedInput)));
}

#[test]
fn test_missing_document_terminator() {
    let doc = vec![0x0a, 0x00, 0x00, 0x00, 0x08, 0x61, 0x00, 0x01];
    assert!(matches!(bson_size(&doc), Err(SizeError::TruncatedInput)));
}

#[test]
fn test_unknown_type() {
    let doc = vec![0x09, 0x00, 0x00, 0x00, 0x7e, 0x61, 0x00, 0x00, 0x00];
    assert!(matches!(bson_size(&doc), Err(SizeError::UnknownType)));
}

#[test]
fn test_unsupported_code_with_scope() {
    let doc = vec![0x09, 0x00, 0x00, 0x00, 0x0f, 0x61, 0x00, 0x00, 0x00];
    assert!(matches!(bson_size(&doc), Err(SizeError::Unsupported)));
}

#[test]
fn test_encoding_invalid_utf8_name() {
    let doc = vec![0x09, 0x00, 0x00, 0x00, 0x08, 0xff, 0x00, 0x01, 0x00];
    assert!(matches!(bson_size(&doc), Err(SizeError::Encoding)));
}

#[test]
fn test_encoding_invalid_utf8_string_value() {
    let doc = vec![
        0x0e, 0x00, 0x00, 0x00,             // document size 14
        0x02, 0x73, 0x00,                   // "s" => string
        0x02, 0x00, 0x00, 0x00, 0xff, 0x00, // length 2, invalid text
        0x00,
    ];
    assert!(matches!(bson_size(&doc), Err(SizeError::Encoding)));
}

#[test]
fn test_size_mismatch_root() {
    let mut doc = fixture();
    doc[0] = 0x22; // declare one byte more than the contents hold
    match bson_size(&doc) {
        Err(SizeError::SizeMismatch { path: p, declared, computed }) => {
            assert_eq!(p, path(&["root"]));
            assert_eq!(declared, 0x22);
            assert_eq!(computed, 0x21);
        },
        _ => panic!("expected a size mismatch naming the root"),
    }
}

#[test]
fn test_size_mismatch_nested_path() {
    let mut doc = fixture();
    doc[21] = 0x0c; // the embedded document declares one byte too many
    match bson_size(&doc) {
        Err(SizeError::SizeMismatch { path: p, declared, computed }) => {
            assert_eq!(p, path(&["root", "baz"]));
            assert_eq!(declared, 0x0c);
            assert_eq!(computed, 0x0b);
        },
        _ => panic!("expected a size mismatch naming the embedded document"),
    }
}

#[test]
fn test_string_element() {
    let doc = vec![
        0x0f, 0x00, 0x00, 0x00,                   // document size 15
        0x02, 0x73, 0x00,                         // "s" => string
        0x03, 0x00, 0x00, 0x00, 0x61, 0x62, 0x00, // "ab"
        0x00,
    ];
    let table = must_parse(&doc);
    assert_eq!(table.len(), 2);
    assert_eq!(table.get(&path(&["root"])), Some(15));
    // 1 tag + 1 name + 1 terminator + (4 length + 3 declared)
    assert_eq!(table.get(&path(&["root", "s"])), Some(10));
}

#[test]
fn test_multibyte_name() {
    let doc = vec![
        0x0a, 0x00, 0x00, 0x00, // document size 10
        0x08, 0xc3, 0xa9, 0x00, // "é" => bool
        0x01, 0x00,
    ];
    let table = must_parse(&doc);
    assert_eq!(table.get(&path(&["root", "é"])), Some(5));
    assert_eq!(table.get(&path(&["root"])), Some(10));
}

#[test]
fn test_fixed_width_elements() {
    let mut doc: Vec<u8> = vec![96, 0x00, 0x00, 0x00];
    doc.extend_from_slice(&[0x10, b'i', 0x00, 0, 0, 0, 0]); // 32-bit int: 7
    doc.extend_from_slice(&[0x12, b'l', 0x00, 0, 0, 0, 0, 0, 0, 0, 0]); // 64-bit int: 11
    doc.extend_from_slice(&[0x01, b'd', 0x00, 0, 0, 0, 0, 0, 0, 0, 0]); // double: 11
    doc.extend_from_slice(&[0x0a, b'n', 0x00]); // null: 3
    doc.extend_from_slice(&[0x07, b'o', 0x00, 1, 2, 3, 4, 5, 6, 7, 8, 9, 10, 11, 12]); // object id: 15
    doc.extend_from_slice(&[0x09, b't', 0x00, 0, 0, 0, 0]); // UTC datetime, sized as 4: 7
    doc.extend_from_slice(&[0x11, b'u', 0x00, 0, 0, 0, 0, 0, 0, 0, 0]); // timestamp: 11
    doc.extend_from_slice(&[
        0x13, b'm', 0x00, 0, 0, 0, 0, 0, 0, 0, 0, 0, 0, 0, 0, 0, 0, 0, 0,
    ]); // 128-bit decimal: 19
    doc.extend_from_slice(&[0x06, b'v', 0x00]); // undefined: 3
    doc.extend_from_slice(&[0x08, b'b', 0x00, 1]); // boolean: 4
    doc.push(0x00);
    assert_eq!(doc.len(), 96);
    let table = must_parse(&doc);
    assert_eq!(table.len(), 11);
    assert_eq!(table.get(&path(&["root"])), Some(96));
    assert_eq!(table.get(&path(&["root", "i"])), Some(7));
    assert_eq!(table.get(&path(&["root", "l"])), Some(11));
    assert_eq!(table.get(&path(&["root", "d"])), Some(11));
    assert_eq!(table.get(&path(&["root", "n"])), Some(3));
    assert_eq!(table.get(&path(&["root", "o"])), Some(15));
    assert_eq!(table.get(&path(&["root", "t"])), Some(7));
    assert_eq!(table.get(&path(&["root", "u"])), Some(11));
    assert_eq!(table.get(&path(&["root", "m"])), Some(19));
    assert_eq!(table.get(&path(&["root", "v"])), Some(3));
    assert_eq!(table.get(&path(&["root", "b"])), Some(4));
}

#[test]
fn test_binary_element() {
    let doc = vec![
        0x10, 0x00, 0x00, 0x00,  // document size 16
        0x05, b'b', 0x00,        // "b" => binary
        0x03, 0x00, 0x00, 0x00,  // declared length 3
        0xaa,                    // subtype byte
        0x01, 0x02, 0x03,        // payload
        0x00,
    ];
    let table = must_parse(&doc);
    // 1 tag + 1 name + 1 terminator + (4 length + 3 declared + 1 subtype)
    assert_eq!(table.get(&path(&["root", "b"])), Some(11));
    assert_eq!(table.get(&path(&["root"])), Some(16));
}

#[test]
fn test_regex_element() {
    let doc = vec![
        0x0d, 0x00, 0x00, 0x00,  // document size 13
        0x0b, b'r', 0x00,        // "r" => regex
        b'a', b'b', 0x00,        // pattern "ab"
        b'i', 0x00,              // options "i"
        0x00,
    ];
    let table = must_parse(&doc);
    // 1 tag + 1 name + 1 terminator + (2 + 1) + (1 + 1)
    assert_eq!(table.get(&path(&["root", "r"])), Some(8));
    assert_eq!(table.get(&path(&["root"])), Some(13));
}

#[test]
fn test_reference_element() {
    let doc = vec![
        0x1a, 0x00, 0x00, 0x00,                   // document size 26
        0x0c, b'p', 0x00,                         // "p" => reference
        0x02, 0x00, 0x00, 0x00, b'c', 0x00,       // collection name "c"
        1, 2, 3, 4, 5, 6, 7, 8, 9, 10, 11, 12,    // 12-byte object id
        0x00,
    ];
    let table = must_parse(&doc);
    // 1 tag + 1 name + 1 terminator + (4 + 2) + 12
    assert_eq!(table.get(&path(&["root", "p"])), Some(21));
    assert_eq!(table.get(&path(&["root"])), Some(26));
}

#[test]
fn test_get_cstring_reads_name_after_tag() {
    let bytes = vec![0x08, 0x61, 0x62, 0x00, 0x01];
    match get_cstring(&bytes, 0) {
        Ok((name, len)) => {
            assert_eq!(name, "ab");
            assert_eq!(len, 2);
        },
        Err(_) => panic!("expected a terminated name"),
    }
}

#[test]
fn test_get_cstring_truncated() {
    let bytes = vec![0x08, 0x61, 0x62];
    assert!(matches!(get_cstring(&bytes, 0), Err(SizeError::TruncatedInput)));
}

#[test]
fn test_get_cstring_invalid_utf8() {
    let bytes = vec![0x08, 0xff, 0x00];
    assert!(matches!(get_cstring(&bytes, 0), Err(SizeError::Encoding)));
}
