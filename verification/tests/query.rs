use grindr_mcp::query::{percent_encode, query_string};

fn decode(text: &str) -> Vec<u8> {
    let bytes = text.as_bytes();
    let mut out = Vec::new();
    let mut i = 0;
    while i < bytes.len() {
        if bytes[i] == b'%' {
            out.push(u8::from_str_radix(&text[i + 1..i + 3], 16).unwrap());
            i += 3;
        } else {
            out.push(bytes[i]);
            i += 1;
        }
    }
    out
}

fn parameters(pairs: &[(&str, &str)]) -> Vec<(String, String)> {
    pairs.iter().map(|(k, v)| (k.to_string(), v.to_string())).collect()
}

#[test]
fn unreserved_characters_pass_through() {
    let plain = "ABCXYZabcxyz0189-_.~";
    assert_eq!(percent_encode(plain), plain);
    assert_eq!(percent_encode(""), "");
}

#[test]
fn other_bytes_are_escaped() {
    assert_eq!(percent_encode("a b&c=d/e?f#g%h+"), "a%20b%26c%3Dd%2Fe%3Ff%23g%25h%2B");
    assert_eq!(percent_encode("ñ€"), "%C3%B1%E2%82%AC");
    assert_eq!(percent_encode("\u{0}\n"), "%00%0A");
}

#[test]
fn decoding_undoes_encoding() {
    for text in ["", "100% sure?", "żółć", "a&b=c", "%41"] {
        assert_eq!(decode(&percent_encode(text)), text.as_bytes());
    }
}

#[test]
fn encoded_text_is_safe() {
    let all: String = (0u8..128).map(|b| b as char).collect();
    for c in percent_encode(&all).chars() {
        assert!(c.is_ascii_alphanumeric() || "-_.~%".contains(c));
    }
}

#[test]
fn parameters_are_joined() {
    assert_eq!(query_string(&parameters(&[])), "");
    assert_eq!(query_string(&parameters(&[("a", "1")])), "a=1");
    assert_eq!(
        query_string(&parameters(&[("a", "1"), ("b c", "&="), ("", "")])),
        "a=1&b%20c=%26%3D&="
    );
}

#[test]
fn different_parameters_make_different_queries() {
    let lists = [
        parameters(&[]),
        parameters(&[("", "")]),
        parameters(&[("a", "b&c=d")]),
        parameters(&[("a", "b"), ("c", "d")]),
        parameters(&[("a=b", "c")]),
        parameters(&[("a", "b=c")]),
    ];
    for (i, a) in lists.iter().enumerate() {
        for (j, b) in lists.iter().enumerate() {
            assert_eq!(query_string(a) == query_string(b), i == j);
        }
    }
}
