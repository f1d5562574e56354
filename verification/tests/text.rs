use mnemosctl::hash::stable_hash_hex;
use mnemosctl::text::{
    decimal_text, hexadecimal_text, lower_case, non_empty, parse_usize, same_text, strip_prefix,
    strip_suffix, trim, trim_end_slashes, trim_start_slashes, upper_case, white_space,
};

#[test]
fn hash_of_nothing_is_the_offset_basis() {
    assert_eq!(stable_hash_hex(""), "cbf29ce484222325");
}

#[test]
fn hashes_of_known_texts() {
    assert_eq!(stable_hash_hex("a"), "af63dc4c8601ec8c");
    assert_eq!(stable_hash_hex("foobar"), "85944171f73967e8");
    // Two bytes in UTF-8.
    assert_ne!(stable_hash_hex("\u{e4}"), stable_hash_hex("a"));
    assert_eq!(stable_hash_hex("\u{e4}").len(), 16);
}

#[test]
fn hash_agrees_with_the_formula_on_bytes() {
    for value in ["", "x", "{\"id\":1}", "\u{20ac}\u{1f600}", "line with  spaces"] {
        let mut hash: u64 = 0xcbf29ce484222325;
        for byte in value.bytes() {
            hash ^= byte as u64;
            hash = hash.wrapping_mul(0x100000001b3);
        }
        assert_eq!(stable_hash_hex(value), format!("{hash:016x}"));
    }
}

#[test]
fn white_space_is_what_char_says_it_is() {
    for code in 0..=0x10ffffu32 {
        if let Some(c) = char::from_u32(code) {
            assert_eq!(white_space(c), c.is_whitespace(), "{code:x}");
        }
    }
}

#[test]
fn trimming_agrees_with_str() {
    for value in ["", " ", "a", " a ", "\t\u{a0}a b\u{3000}\n", "\u{200b}a", "///", "a//", "//a/b//"] {
        assert_eq!(trim(value), value.trim());
        assert_eq!(trim_end_slashes(value), value.trim_end_matches('/'));
        assert_eq!(trim_start_slashes(value), value.trim_start_matches('/'));
    }
}

#[test]
fn blank_text_counts_as_none() {
    assert_eq!(non_empty(" \u{2003}\t".to_string()), None);
    assert_eq!(non_empty(String::new()), None);
    assert_eq!(non_empty("  x y ".to_string()), Some("x y".to_string()));
}

#[test]
fn numbers_are_written_as_display_writes_them() {
    for n in [0, 9, 10, 99, 100, 1234567890, u64::MAX] {
        assert_eq!(decimal_text(n), n.to_string());
        assert_eq!(hexadecimal_text(n, 16), format!("{n:016x}"));
    }
    assert_eq!(hexadecimal_text(0x1234, 2), "34");
}

#[test]
fn numbers_are_read_as_from_str_reads_them() {
    let largest = usize::MAX.to_string();
    let beyond = format!("{largest}0");
    for value in [
        "", "+", "-", "0", "007", "+5", "-5", "++5", " 5", "5 ", "5a", "\u{665}", "1_000",
        "18446744073709551615", "18446744073709551616", largest.as_str(), beyond.as_str(),
        "99999999999999999999999999", "000000000000000000000000000000001",
    ] {
        assert_eq!(parse_usize(value), value.parse::<usize>().ok(), "{value}");
    }
}

#[test]
fn affixes_are_stripped_as_str_strips_them() {
    for (value, affix) in
        [("wiremock-1", "wiremock-"), ("wire", "wiremock-"), ("aba", "a"), ("a", "a"), ("", "a"), ("x", "")]
    {
        assert_eq!(strip_prefix(value, affix), value.strip_prefix(affix).map(str::to_string));
        assert_eq!(strip_suffix(value, affix), value.strip_suffix(affix).map(str::to_string));
    }
}

#[test]
fn case_changes_ascii_letters_only() {
    let value = "AZ az [`{@ \u{c4}\u{e4}";
    assert_eq!(lower_case(value), value.to_ascii_lowercase());
    assert_eq!(upper_case(value), value.to_ascii_uppercase());
    assert!(same_text("ab", "ab"));
    assert!(!same_text("ab", "aB"));
}
