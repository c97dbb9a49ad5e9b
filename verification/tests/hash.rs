use regex::Regex;
use swc_plugin_formatjs::digest::hex_lower;
use swc_plugin_formatjs::hash::{
    class_letter, decimal_digit, encode_digest, hash_digest, hash_token_at_exec, parse_length,
    HashToken,
};
use swc_plugin_formatjs::{interpolate_pattern, validate_pattern, PatternError};

fn chars(s: &str) -> Vec<char> {
    s.chars().collect()
}

#[test]
fn sha512_base64_6_matches_node() {
    let id = interpolate_pattern("[sha512:contenthash:base64:6]", "Hello, {name}!").unwrap();
    assert_eq!(id, "tBFOH1");
}

#[test]
fn sha512_base64_6_with_description() {
    let id = interpolate_pattern(
        "[sha512:contenthash:base64:6]",
        "Hello, {name}!#Greets the user by name",
    )
    .unwrap();
    assert_eq!(id, "LlYGNJ");
}

#[test]
fn hex_lower_encodes_each_byte() {
    assert_eq!(hex_lower(&[0x00, 0x0f, 0xa5, 0xff]), "000fa5ff");
    assert_eq!(hex_lower(&[]), "");
}

#[test]
fn sha512_hex_prefix() {
    // SHA-512 of the empty string starts with cf83e1357eefb8bd.
    let id = interpolate_pattern("[sha512:hash:hex:16]", "").unwrap();
    assert_eq!(id, "cf83e1357eefb8bd");
}

#[test]
fn digest_bytes_are_encoded_and_cut() {
    let bytes = [0x4du8, 0x61, 0x6e, 0xff];
    assert_eq!(encode_digest(&bytes, &chars("base64"), 9999).unwrap(), "TWFu/w==");
    assert_eq!(encode_digest(&bytes, &chars("base64"), 5).unwrap(), "TWFu/");
    assert_eq!(encode_digest(&bytes, &chars("hex"), 9999).unwrap(), "4d616eff");
    assert_eq!(encode_digest(&bytes, &chars("hex"), 3).unwrap(), "4d6");
    assert_eq!(encode_digest(&bytes, &chars("hex"), 0).unwrap(), "");
    assert_eq!(encode_digest(&[], &chars("base64"), 6).unwrap(), "");
    assert_eq!(
        encode_digest(&bytes, &chars("base32"), 4),
        Err(PatternError::UnsupportedDigestType("base32".to_string()))
    );
}

#[test]
fn digest_lengths_are_cut_lengths() {
    for n in [0usize, 1, 6, 87, 88, 89, 128, 500] {
        let b = hash_digest("x", &chars("sha512"), &chars("base64"), n).unwrap();
        assert_eq!(b.len(), n.min(88));
        let h = hash_digest("x", &chars("sha512"), &chars("hex"), n).unwrap();
        assert_eq!(h.len(), n.min(128));
    }
}

#[test]
fn shorter_length_gives_prefix_of_longer() {
    let short = interpolate_pattern("[sha512:contenthash:base64:6]", "Hello, {name}!").unwrap();
    let long = interpolate_pattern("[sha512:contenthash:base64:20]", "Hello, {name}!").unwrap();
    let full = interpolate_pattern("[sha512:contenthash:base64]", "Hello, {name}!").unwrap();
    assert_eq!(long.len(), 20);
    assert!(long.starts_with(&short));
    assert!(full.starts_with(&long));
    assert_eq!(full.len(), 88);
    assert!(full.starts_with("tBFOH1"));
    assert!(full.ends_with("=="));
}

#[test]
fn hex_encoding_decodes_back() {
    let bytes: Vec<u8> = (0u8..=255).collect();
    let hex = hex_lower(&bytes);
    let back: Vec<u8> = (0..bytes.len())
        .map(|i| u8::from_str_radix(&hex[2 * i..2 * i + 2], 16).unwrap())
        .collect();
    assert_eq!(back, bytes);
    assert_eq!(hex_lower(&[0x12, 0xab]), hex_lower(&[0x12]) + &hex_lower(&[0xab]));
}

#[test]
fn full_digest_without_length() {
    let b64 = interpolate_pattern("[sha512:hash:base64]", "x").unwrap();
    assert_eq!(b64.len(), 88);
    assert!(b64.ends_with("=="));
    let hex = interpolate_pattern("[sha512:contenthash]", "x").unwrap();
    assert_eq!(hex.len(), 128);
}

#[test]
fn length_that_does_not_fit_means_no_cut() {
    let id = interpolate_pattern("[sha512:hash:base64:99999999999999999999999]", "x").unwrap();
    assert_eq!(id.len(), 88);
    assert_eq!(parse_length(&Some(chars("99999999999999999999999"))), 9999);
    assert_eq!(parse_length(&Some(chars("0042"))), 42);
    assert_eq!(parse_length(&Some(chars("\u{663}"))), 9999);
    assert_eq!(parse_length(&None), 9999);
}

#[test]
fn text_around_tokens_is_kept() {
    let id = interpolate_pattern("id-[sha512:contenthash:base64:6]-end", "Hello, {name}!").unwrap();
    assert_eq!(id, "id-tBFOH1-end");
    assert_eq!(interpolate_pattern("plain text", "x").unwrap(), "plain text");
    assert_eq!(interpolate_pattern("[name]", "x").unwrap(), "[name]");
}

#[test]
fn keyword_case_is_ignored_but_hash_type_is_not() {
    assert_eq!(
        interpolate_pattern("[sha512:CONTENTHASH:base64:6]", "Hello, {name}!").unwrap(),
        "tBFOH1"
    );
    assert_eq!(
        interpolate_pattern("[SHA512:hash:base64:6]", "x"),
        Err(PatternError::UnsupportedHashType("SHA512".to_string()))
    );
}

#[test]
fn default_hash_type_is_md5_which_is_refused() {
    assert_eq!(
        interpolate_pattern("[hash]", "x"),
        Err(PatternError::UnsupportedHashType("md5".to_string()))
    );
}

#[test]
fn unknown_digest_type_is_refused() {
    assert_eq!(
        interpolate_pattern("[sha512:hash:base32:4]", "x"),
        Err(PatternError::UnsupportedDigestType("base32".to_string()))
    );
    assert_eq!(
        hash_digest("x", &chars("sha512"), &chars("latin1"), 3),
        Err(PatternError::UnsupportedDigestType("latin1".to_string()))
    );
}

#[test]
fn validation_accepts_hash_tokens_only() {
    assert_eq!(validate_pattern("[sha512:contenthash:base64:6]"), Ok(()));
    assert_eq!(validate_pattern("no tokens at all"), Ok(()));
    assert_eq!(validate_pattern("[hash]-[contenthash:4]"), Ok(()));
    assert_eq!(validate_pattern("unclosed [name"), Ok(()));
    assert_eq!(
        validate_pattern("[name].[sha512:hash]"),
        Err(PatternError::UnsupportedToken("[name]".to_string()))
    );
    assert_eq!(
        validate_pattern("[sha512:hash][ext]"),
        Err(PatternError::UnsupportedToken("[ext]".to_string()))
    );
    assert_eq!(validate_pattern("[x[hash]"), Ok(()));
}

#[test]
fn token_parts_are_read() {
    let p = chars("[sha512:hash:base64:6]");
    let (end, t): (usize, HashToken) = hash_token_at_exec(&p, 0).unwrap();
    assert_eq!(end, p.len());
    assert_eq!(t.hash_type, Some(chars("sha512")));
    assert_eq!(t.digest_type, Some(chars("base64")));
    assert_eq!(t.length, Some(chars("6")));
    let p = chars("[hash:12]");
    let (_, t) = hash_token_at_exec(&p, 0).unwrap();
    assert_eq!(t.hash_type, None);
    assert_eq!(t.digest_type, None);
    assert_eq!(t.length, Some(chars("12")));
    assert!(hash_token_at_exec(&chars("[hash:]"), 0).is_none());
    assert!(hash_token_at_exec(&chars("[hash"), 0).is_none());
}

fn hash_token_regex() -> Regex {
    Regex::new(r"(?i)\[(?:([^:\]]+):)?(?:hash|contenthash)(?::([a-z]+\d*[a-z]*))?(?::(\d+))?\]").unwrap()
}

fn any_token_regex() -> Regex {
    Regex::new(r"\[[^\]]*\]").unwrap()
}

fn describe(h: &Option<String>, d: &Option<String>, l: &Option<String>) -> String {
    format!("<{:?}|{:?}|{:?}>", h, d, l)
}

/// The pattern with each hash token replaced by a description of its parts,
/// as the regular expression reads them.
fn regex_render(pattern: &str) -> String {
    hash_token_regex()
        .replace_all(pattern, |caps: &regex::Captures| {
            let g = |i: usize| caps.get(i).map(|m| m.as_str().to_string());
            describe(&g(1), &g(2), &g(3))
        })
        .into_owned()
}

/// The same, as the library's grammar reads them.
fn library_render(pattern: &str) -> String {
    let p = chars(pattern);
    let mut out = String::new();
    let mut i = 0;
    while i < p.len() {
        match hash_token_at_exec(&p, i) {
            Some((e, t)) => {
                let s = |o: &Option<Vec<char>>| o.as_ref().map(|v| v.iter().collect::<String>());
                out.push_str(&describe(&s(&t.hash_type), &s(&t.digest_type), &s(&t.length)));
                i = e;
            }
            None => {
                out.push(p[i]);
                i += 1;
            }
        }
    }
    out
}

fn regex_validate(pattern: &str) -> Result<(), String> {
    let hash_re = hash_token_regex();
    for m in any_token_regex().find_iter(pattern) {
        if !hash_re.is_match(m.as_str()) {
            return Err(m.as_str().to_string());
        }
    }
    Ok(())
}

fn sample_patterns() -> Vec<String> {
    let mut v: Vec<String> = [
        "[sha512:contenthash:base64:6]",
        "[hash]",
        "[HaSh]",
        "[ContentHash:7]",
        "[ſha512:haſh:baſe64:6]",
        "[sha512:hash:\u{212a}ex]",
        "[a:b:hash]",
        "[hash:hash]",
        "[hash:hash:hash]",
        "[:hash]",
        "[sha512:hash:12abc]",
        "[sha512:hash:ab12cd:3]",
        "[sha512:hash:ab12cd34]",
        "[sha512:hash:base64:\u{663}\u{664}]",
        "[sha512:hash:base\u{663}:1]",
        "[x[hash]",
        "[[sha512:hash]",
        "[hash]]",
        "[hash:]",
        "[hash::1]",
        "pre[sha1:hash:hex:4]mid[name]post",
        "[sha512:hash:base64:6][sha512:contenthash:hex:8]",
        "unclosed [hash",
        "]][[hash][",
        "[sha 512:hash:hex]",
        "[\u{e9}:hash]",
        "[hash:hex:6:7]",
        "[contenthashx]",
        "[hashes]",
        "",
    ]
    .iter()
    .map(|s| s.to_string())
    .collect();
    let alphabet = ['[', ']', ':', 'h', 'a', 's', 'H', '1', '6', 'x'];
    let mut seed: u64 = 0x9e3779b97f4a7c15;
    for _ in 0..3000 {
        let mut s = String::new();
        seed ^= seed << 13;
        seed ^= seed >> 7;
        seed ^= seed << 17;
        let len = (seed % 14) as usize;
        for k in 0..len {
            let idx = ((seed >> (4 * (k % 15))) % alphabet.len() as u64) as usize;
            s.push(alphabet[idx]);
        }
        v.push(s);
    }
    for w in ["hash", "contenthash"] {
        for pre in ["", "sha512:", "x:"] {
            for post in ["", ":hex", ":6", ":hex:6", ":b64x:9", ":6:hex"] {
                v.push(format!("[{}{}{}]", pre, w, post));
            }
        }
    }
    v
}

#[test]
fn token_grammar_agrees_with_the_regular_expression() {
    for p in sample_patterns() {
        assert_eq!(library_render(&p), regex_render(&p), "pattern {:?}", p);
    }
}

#[test]
fn validation_agrees_with_the_regular_expressions() {
    for p in sample_patterns() {
        let expected = regex_validate(&p);
        let got = validate_pattern(&p).map_err(|e| match e {
            PatternError::UnsupportedToken(t) => t,
            other => panic!("unexpected {:?}", other),
        });
        assert_eq!(got, expected, "pattern {:?}", p);
    }
}

#[test]
fn character_classes_agree_with_the_regular_expression() {
    let digit = Regex::new(r"^\d$").unwrap();
    let letter = Regex::new(r"(?i)^[a-z]$").unwrap();
    for u in 0u32..=0x10FFFF {
        if let Some(c) = char::from_u32(u) {
            let s = c.to_string();
            assert_eq!(decimal_digit(c), digit.is_match(&s), "U+{:04X}", u);
            assert_eq!(class_letter(c), letter.is_match(&s), "U+{:04X}", u);
        }
    }
}
