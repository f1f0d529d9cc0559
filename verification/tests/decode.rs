use scel2rime::container::InputFileBuff;
use scel2rime::emit::emit_dict;
use scel2rime::errors::ScelError;
use scel2rime::pinyin::get_pinyin_table;
use scel2rime::pipeline::convert;
use scel2rime::words::get_word_list;
use scel2rime::words::Entry;

const MAGIC: [u8; 12] = [
    0x40, 0x15, 0x00, 0x00, 0x44, 0x43, 0x53, 0x01, 0x01, 0x00, 0x00, 0x00,
];

fn push_u16(v: &mut Vec<u8>, x: u16) {
    v.push((x & 0xff) as u8);
    v.push((x >> 8) as u8);
}

fn utf16_bytes(s: &str) -> Vec<u8> {
    let mut out = Vec::new();
    for u in s.encode_utf16() {
        push_u16(&mut out, u);
    }
    out
}

/// The phonetic-symbol section: signature, one record per symbol, optionally
/// padded to an exact size with one final zero-filled record.
fn symbol_section(symbols: &[&str], pad_to: Option<usize>) -> Vec<u8> {
    let mut v = vec![0x9d, 0x01, 0x00, 0x00];
    for (i, s) in symbols.iter().enumerate() {
        let b = utf16_bytes(s);
        push_u16(&mut v, i as u16);
        push_u16(&mut v, b.len() as u16);
        v.extend_from_slice(&b);
    }
    if let Some(total) = pad_to {
        let r = total - v.len();
        if r > 0 {
            assert!(r >= 4 && (r - 4) % 2 == 0);
            push_u16(&mut v, 0);
            push_u16(&mut v, (r - 4) as u16);
            v.extend(std::iter::repeat(0u8).take(r - 4));
        }
    }
    v
}

/// One homophone group: the declared member count, the shared index
/// sequence, then one (text, priority) record per member with a minimal
/// extension block.
fn group(count: u16, indices: &[u16], words: &[(&str, u16)]) -> Vec<u8> {
    let mut v = Vec::new();
    push_u16(&mut v, count);
    push_u16(&mut v, (indices.len() * 2) as u16);
    for &ix in indices {
        push_u16(&mut v, ix);
    }
    for &(w, pri) in words {
        let b = utf16_bytes(w);
        push_u16(&mut v, b.len() as u16);
        v.extend_from_slice(&b);
        push_u16(&mut v, 2);
        push_u16(&mut v, pri);
    }
    v
}

/// A full container: magic, zeroed metadata, a padded symbol section, and the
/// given word section.
fn container(symbols: &[&str], word_section: &[u8]) -> Vec<u8> {
    let mut v = vec![0u8; 0x2628];
    v[..12].copy_from_slice(&MAGIC);
    let py = symbol_section(symbols, Some(0x10e8));
    assert_eq!(py.len(), 0x10e8);
    v[0x1540..0x2628].copy_from_slice(&py);
    v.extend_from_slice(word_section);
    v
}

/// 0x191 filler symbols, then "zhuang" at position 0x191.
fn zhuang_symbols() -> Vec<&'static str> {
    let mut syms = vec!["a"; 0x191];
    syms.push("zhuang");
    syms
}

#[test]
fn short_buffer_is_malformed_container() {
    let data = vec![0u8; 100];
    match InputFileBuff::new(data) {
        Err(e) => assert_eq!(e, ScelError::MalformedContainer),
        Ok(_) => panic!("a short buffer must not validate"),
    }
    assert_eq!(convert(vec![0u8; 0x2627]), Err(ScelError::MalformedContainer));
}

#[test]
fn wrong_magic_is_malformed_container() {
    let mut data = vec![0u8; 0x2628];
    data[..12].copy_from_slice(&MAGIC);
    data[0] = 0x41;
    match InputFileBuff::new(data) {
        Err(e) => assert_eq!(e, ScelError::MalformedContainer),
        Ok(_) => panic!("a wrong magic signature must not validate"),
    }
}

#[test]
fn valid_container_exposes_ranges() {
    let data = container(&zhuang_symbols(), &[]);
    let buff = InputFileBuff::new(data).unwrap();
    assert_eq!(buff.get_name().len(), 0x338 - 0x130);
    assert_eq!(buff.get_type().len(), 0x540 - 0x338);
    assert_eq!(buff.get_info().len(), 0xd40 - 0x540);
    assert_eq!(buff.get_example().len(), 0x1540 - 0xd40);
    assert_eq!(buff.get_pinyin_range().len(), 0x2628 - 0x1540);
    assert_eq!(buff.get_word_range().len(), 0);
}

#[test]
fn metadata_name_decodes() {
    let mut data = container(&zhuang_symbols(), &[]);
    let name = utf16_bytes("ab");
    data[0x130..0x130 + name.len()].copy_from_slice(&name);
    let buff = InputFileBuff::new(data).unwrap();
    let text = buff.name_text().unwrap();
    let mut expected = String::from("ab");
    expected.push_str(&"\u{0}".repeat((0x338 - 0x130) / 2 - 2));
    assert_eq!(text, expected);
}

#[test]
fn symbol_lookup_zhuang() {
    let data = container(&zhuang_symbols(), &[]);
    let buff = InputFileBuff::new(data).unwrap();
    let table = get_pinyin_table(buff.get_pinyin_range()).unwrap();
    assert_eq!(table[0x191], "zhuang");
}

#[test]
fn end_to_end_example() {
    let py = symbol_section(&["a", "bo", "ce"], None);
    let table = get_pinyin_table(&py).unwrap();
    assert_eq!(table, vec!["a", "bo", "ce"]);
    let ws = group(1, &[0, 2], &[("\u{6d4b}", 5)]);
    let entries = get_word_list(&ws).unwrap();
    assert_eq!(entries.len(), 1);
    let out = emit_dict(&table, &entries).unwrap();
    assert_eq!(out, "\u{6d4b}\ta ce\n".as_bytes().to_vec());
}

#[test]
fn group_count_matches_declared() {
    let ws = group(2, &[1], &[("a", 1), ("bo", 2)]);
    let entries = get_word_list(&ws).unwrap();
    assert_eq!(entries.len(), 2);
    assert_eq!(entries[0].word, "a");
    assert_eq!(entries[0].py_index_list, vec![1u16]);
    assert_eq!(entries[0].priority, 1);
    assert_eq!(entries[1].word, "bo");
    assert_eq!(entries[1].py_index_list, vec![1u16]);
    assert_eq!(entries[1].priority, 2);
}

#[test]
fn dangling_index_detected() {
    let table = vec![String::from("a"), String::from("bo")];
    let entries = vec![Entry { word: String::from("x"), py_index_list: vec![0, 9], priority: 0 }];
    assert_eq!(emit_dict(&table, &entries), Err(ScelError::DanglingIndex));
}

#[test]
fn wrong_section_signature_is_malformed_section() {
    let mut py = symbol_section(&["a"], None);
    py[0] = 0x00;
    assert_eq!(get_pinyin_table(&py), Err(ScelError::MalformedSection));
    assert_eq!(get_pinyin_table(&[0x9d]), Err(ScelError::MalformedSection));
}

#[test]
fn truncated_symbol_payload_is_truncated_section() {
    let py = symbol_section(&["ab"], None);
    assert_eq!(py.len(), 12);
    assert_eq!(get_pinyin_table(&py[..10]), Err(ScelError::TruncatedSection));
    assert_eq!(get_pinyin_table(&py[..6]), Err(ScelError::TruncatedSection));
    assert_eq!(get_pinyin_table(&py[..5]), Err(ScelError::TruncatedSection));
}

#[test]
fn truncated_word_payload_is_truncated_section() {
    let ws = group(1, &[0, 2], &[("\u{6d4b}", 5)]);
    assert_eq!(get_word_list(&ws[..11]), Err(ScelError::TruncatedSection));
    assert_eq!(get_word_list(&ws[..3]), Err(ScelError::TruncatedSection));
    assert_eq!(get_word_list(&ws[..6]), Err(ScelError::TruncatedSection));
    assert_eq!(get_word_list(&ws[..ws.len() - 1]), Err(ScelError::TruncatedSection));
}

#[test]
fn invalid_utf16_is_encoding_error() {
    let mut ws = Vec::new();
    push_u16(&mut ws, 1);
    push_u16(&mut ws, 0);
    push_u16(&mut ws, 2);
    push_u16(&mut ws, 0xd800);
    push_u16(&mut ws, 2);
    push_u16(&mut ws, 0);
    assert_eq!(get_word_list(&ws), Err(ScelError::EncodingError));
}

#[test]
fn extension_below_two_is_truncated_section() {
    let mut ws = Vec::new();
    push_u16(&mut ws, 1);
    push_u16(&mut ws, 0);
    push_u16(&mut ws, 2);
    ws.extend_from_slice(&utf16_bytes("a"));
    push_u16(&mut ws, 1);
    push_u16(&mut ws, 7);
    assert_eq!(get_word_list(&ws), Err(ScelError::TruncatedSection));
}

#[test]
fn empty_index_sequence_gives_bare_line() {
    let table = vec![String::from("a")];
    let ws = group(1, &[], &[("x", 1)]);
    let entries = get_word_list(&ws).unwrap();
    assert_eq!(entries.len(), 1);
    assert_eq!(entries[0].py_index_list, Vec::<u16>::new());
    let out = emit_dict(&table, &entries).unwrap();
    assert_eq!(out, "x\t\n".as_bytes().to_vec());
}

#[test]
fn empty_word_section_gives_no_entries() {
    let entries = get_word_list(&[]).unwrap();
    assert_eq!(entries.len(), 0);
}

#[test]
fn convert_is_idempotent() {
    let ws = group(1, &[0x191], &[("\u{5e84}", 1)]);
    let data = container(&zhuang_symbols(), &ws);
    let first = convert(data.clone()).unwrap();
    let second = convert(data).unwrap();
    assert_eq!(first, second);
    assert_eq!(first, "\u{5e84}\tzhuang\n".as_bytes().to_vec());
}

#[test]
fn missing_zhuang_probe_is_malformed_section() {
    let data = container(&["a", "bo"], &[]);
    assert_eq!(convert(data), Err(ScelError::MalformedSection));
    let mut syms = vec!["a"; 0x191];
    syms.push("wrong");
    let data = container(&syms, &[]);
    assert_eq!(convert(data), Err(ScelError::MalformedSection));
}
