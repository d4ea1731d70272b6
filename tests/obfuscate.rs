use base64::Engine;
use script_shell::obfuscate::{
    ecb_encrypt_blocks, encrypt_literal, encrypt_string, literal_spans, literal_token_chars,
    obfuscate_source, obfuscate_with_keys, replace_all_chars, trim_quotes, zero_pad_bytes,
};

fn chars(s: &str) -> Vec<char> {
    s.chars().collect()
}

fn key_seq() -> Vec<u8> {
    (0u8..32).collect()
}

#[test]
fn aes256_known_answer() {
    let pt: Vec<u8> = vec![
        0x00, 0x11, 0x22, 0x33, 0x44, 0x55, 0x66, 0x77, 0x88, 0x99, 0xaa, 0xbb, 0xcc, 0xdd, 0xee,
        0xff,
    ];
    let ct = ecb_encrypt_blocks(&key_seq(), &pt);
    assert_eq!(
        ct,
        vec![
            0x8e, 0xa2, 0xb7, 0xca, 0x51, 0x67, 0x45, 0xbf, 0xea, 0xfc, 0x49, 0x90, 0x4b, 0x49,
            0x60, 0x89
        ]
    );
}

#[test]
fn ecb_blocks_are_independent() {
    let mut two = vec![0x00u8, 0x11, 0x22, 0x33, 0x44, 0x55, 0x66, 0x77, 0x88, 0x99, 0xaa, 0xbb, 0xcc, 0xdd, 0xee, 0xff];
    let one = two.clone();
    two.extend_from_slice(&one);
    let ct = ecb_encrypt_blocks(&key_seq(), &two);
    assert_eq!(ct.len(), 32);
    assert_eq!(ct[..16], ct[16..]);
    assert_eq!(ct[..16], ecb_encrypt_blocks(&key_seq(), &one)[..]);
}

#[test]
fn zero_padding() {
    assert_eq!(zero_pad_bytes(&vec![]), Vec::<u8>::new());
    let p = zero_pad_bytes(&vec![1, 2, 3]);
    assert_eq!(p.len(), 16);
    assert_eq!(&p[..3], &[1, 2, 3]);
    assert!(p[3..].iter().all(|b| *b == 0));
    assert_eq!(zero_pad_bytes(&vec![7u8; 16]).len(), 16);
    assert_eq!(zero_pad_bytes(&vec![7u8; 17]).len(), 32);
}

#[test]
fn encrypt_literal_is_base64_of_ciphertext() {
    // "hi" padded to one block, encrypted under 00..1f, in base64: 24 characters.
    let e = encrypt_literal("hi", &key_seq());
    assert_eq!(e.len(), 24);
    assert!(e.ends_with("=="));
    assert_ne!(e, "hi");
    let mut block = b"hi".to_vec();
    block.resize(16, 0);
    let ct = ecb_encrypt_blocks(&key_seq(), &block);
    assert_eq!(ct.len(), 16);
    assert_eq!(e, base64::engine::general_purpose::STANDARD.encode(&ct));
    assert_eq!(encrypt_literal("", &key_seq()), "");
}

#[test]
fn encrypt_string_uses_a_fresh_key() {
    let a = encrypt_string("secret value").unwrap();
    let b = encrypt_string("secret value").unwrap();
    assert_eq!(a.len(), 24);
    assert_ne!(a, b);
}

#[test]
fn spans_of_simple_literals() {
    let t = chars(r#"let a = "x"; let b = "yz";"#);
    assert_eq!(literal_spans(&t), vec![(8, 11), (21, 25)]);
}

#[test]
fn spans_with_escapes() {
    let t = chars(r#"f("a\"b", "c\\")"#);
    assert_eq!(literal_spans(&t), vec![(2, 8), (10, 15)]);
}

#[test]
fn unbalanced_literal_is_skipped() {
    // a backslash before a line break stops the first attempt; the scan
    // resumes at the next quote
    let t = chars("\"ab\\\nc\" \"ok\"");
    assert_eq!(literal_spans(&t), vec![(6, 9)]);
    assert_eq!(literal_spans(&chars("\"open")), vec![]);
}

#[test]
fn trim_quotes_of_literal() {
    assert_eq!(trim_quotes(&chars("\"abc\"")), chars("abc"));
    assert_eq!(trim_quotes(&chars("\"a\\\"\"")), chars("a\\"));
    assert_eq!(trim_quotes(&chars("\"\"")), chars(""));
}

#[test]
fn replace_is_global_and_non_overlapping() {
    let r = replace_all_chars(&chars("aaa b aa"), &chars("aa"), &chars("X"));
    assert_eq!(r, chars("Xa b X"));
    let r = replace_all_chars(&chars("\"k\" + \"k\""), &chars("\"k\""), &chars("\"Q\""));
    assert_eq!(r, chars("\"Q\" + \"Q\""));
}

#[test]
fn token_is_one_quoted_literal() {
    let t = literal_token_chars("hello", &key_seq());
    assert_eq!(t.len(), 26);
    assert_eq!(t[0], '"');
    assert_eq!(t[25], '"');
    assert_eq!(literal_spans(&t), vec![(0, 26)]);
    let body: String = t[1..25].iter().collect();
    assert_eq!(body, encrypt_literal("hello", &key_seq()));
}

#[test]
fn obfuscation_with_known_keys() {
    let text = r#"let a = "hello"; let b = "world";"#;
    let keys = vec![key_seq(), vec![9u8; 32]];
    let out = obfuscate_with_keys(text, &keys);
    let expected = format!(
        "let a = \"{}\"; let b = \"{}\";",
        encrypt_literal("hello", &key_seq()),
        encrypt_literal("world", &vec![9u8; 32])
    );
    assert_eq!(out, expected);
}

#[test]
fn duplicate_literals_take_the_first_substitution() {
    let text = r#"x("dup"); y("dup");"#;
    let keys = vec![key_seq(), vec![5u8; 32]];
    let out = obfuscate_with_keys(text, &keys);
    let enc = encrypt_literal("dup", &key_seq());
    assert_eq!(out, format!("x(\"{}\"); y(\"{}\");", enc, enc));
}

#[test]
fn obfuscation_hides_every_literal() {
    let text = "fn main() { println!(\"top secret\"); let s = \"another one\"; }";
    let out = obfuscate_source(text).unwrap();
    assert!(!out.contains("top secret"));
    assert!(!out.contains("another one"));
    assert!(out.starts_with("fn main() { println!(\""));
    let spans = literal_spans(&chars(&out));
    assert_eq!(spans.len(), 2);
}

#[test]
fn text_without_literals_is_unchanged() {
    assert_eq!(obfuscate_source("fn f() -> u8 { 1 }").unwrap(), "fn f() -> u8 { 1 }");
    assert_eq!(obfuscate_source("").unwrap(), "");
}
