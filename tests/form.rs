use jenkins_trigger::form::{decode_form, encode_form};

fn pairs(items: &[(&str, &str)]) -> Vec<(String, String)> {
    items
        .iter()
        .map(|(k, v)| (k.to_string(), v.to_string()))
        .collect()
}

fn as_bytes(items: &[(String, String)]) -> Vec<(Vec<u8>, Vec<u8>)> {
    items
        .iter()
        .map(|(k, v)| (k.as_bytes().to_vec(), v.as_bytes().to_vec()))
        .collect()
}

#[test]
fn empty_list_gives_empty_body() {
    assert_eq!(encode_form(&Vec::new()), b"".to_vec());
    assert!(decode_form(b"").is_empty());
}

#[test]
fn plain_pairs() {
    let p = pairs(&[("BRANCH", "main"), ("TAG", "v1.2-rc_3*")]);
    assert_eq!(encode_form(&p), b"BRANCH=main&TAG=v1.2-rc_3*".to_vec());
}

#[test]
fn reserved_bytes_are_escaped() {
    let p = pairs(&[("a b", "x&y=z+%/")]);
    assert_eq!(encode_form(&p), b"a+b=x%26y%3Dz%2B%25%2F".to_vec());
}

#[test]
fn non_ascii_is_escaped_per_byte() {
    let p = pairs(&[("é", "")]);
    assert_eq!(encode_form(&p), b"%C3%A9=".to_vec());
}

#[test]
fn decoding_reads_both_hex_cases_and_skips_empty_segments() {
    let d = decode_form(b"a=%c3%A9&&b&c=%zz+1");
    assert_eq!(
        d,
        vec![
            (b"a".to_vec(), "é".as_bytes().to_vec()),
            (b"b".to_vec(), b"".to_vec()),
            (b"c".to_vec(), b"%zz 1".to_vec()),
        ]
    );
}

#[test]
fn round_trip_recovers_pairs() {
    let lists = vec![
        pairs(&[("BRANCH", "main")]),
        pairs(&[("", "")]),
        pairs(&[("K", "v=w&x"), ("SPACE", "a b c"), ("UNI", "größe 日本")]),
        pairs(&[("PCT", "%41%"), ("PLUS", "+"), ("EMPTY", "")]),
    ];
    for list in lists {
        let body = encode_form(&list);
        assert_eq!(decode_form(&body), as_bytes(&list));
    }
}
