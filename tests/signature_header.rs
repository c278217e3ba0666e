use sigh::{Error, SignatureHeader};

#[test]
fn parse_example_4_1_1() {
    let h = SignatureHeader::parse(r#"
            keyId="rsa-key-1",algorithm="hs2019",
            created=1402170695, expires=1402170995,
            headers="(request-target) (created) (expires)
                host date digest content-length",
            signature="Base64(RSA-SHA256(signing string))"
        "#).unwrap();
    assert_eq!(h.key_id.as_deref(), Some("rsa-key-1"));
    assert_eq!(h.algorithm, "hs2019");
    assert_eq!(h.headers, vec![
        "(request-target)",
        "(created)", "(expires)",
        "host", "date", "digest", "content-length",
    ]);
    assert_eq!(h.signature, "Base64(RSA-SHA256(signing string))");
    assert_eq!(h.other, vec![
        ("created".to_string(), "1402170695".to_string()),
        ("expires".to_string(), "1402170995".to_string()),
    ]);
}

#[test]
fn missing_mandatory_fields() {
    assert!(matches!(
        SignatureHeader::parse(r#"keyId="x",signature="y""#),
        Err(Error::MissingField("algorithm"))
    ));
    assert!(matches!(
        SignatureHeader::parse(r#"keyId="x",algorithm="hs2019",signature="y""#),
        Err(Error::MissingField("headers"))
    ));
    assert!(matches!(
        SignatureHeader::parse(r#"algorithm="hs2019",headers="host""#),
        Err(Error::MissingField("signature"))
    ));
    assert!(matches!(SignatureHeader::parse(""), Err(Error::MissingField("algorithm"))));
}

#[test]
fn multiline_headers_match_single_line() {
    let multi = SignatureHeader::parse(
        "algorithm=\"hs2019\",headers=\"(request-target)\n\t  host\r\n date \",signature=\"s\"",
    )
    .unwrap();
    let single =
        SignatureHeader::parse(r#"algorithm="hs2019",headers="(request-target) host date",signature="s""#)
            .unwrap();
    assert_eq!(multi.headers, single.headers);
    assert_eq!(multi.headers, vec!["(request-target)", "host", "date"]);
}

#[test]
fn grammar_errors() {
    for input in [
        "   ",
        "keyId",
        "keyId=\"a\",",
        "keyId=\"a\" junk",
        "key-id=\"a\"",
        "=\"a\"",
        ",algorithm=hs2019",
    ] {
        assert!(
            matches!(SignatureHeader::parse(input), Err(Error::ParseSignatureHeader)),
            "{:?}",
            input
        );
    }
}

#[test]
fn bare_and_odd_values() {
    let h = SignatureHeader::parse("algorithm = rsa-sha256 , headers=host,signature=\"abc,x=y\" , z=").unwrap();
    assert_eq!(h.algorithm, "rsa-sha256");
    assert_eq!(h.headers, vec!["host"]);
    assert_eq!(h.signature, "abc,x=y");
    assert_eq!(h.other, vec![("z".to_string(), String::new())]);
}

#[test]
fn later_fields_override_and_unknown_fields_stay() {
    let h = SignatureHeader::parse(
        r#"algorithm="a",headers="x",signature="s",algorithm="b",foo="1",foo="2",headers="y z""#,
    )
    .unwrap();
    assert_eq!(h.algorithm, "b");
    assert_eq!(h.headers, vec!["y", "z"]);
    assert_eq!(h.key_id, None);
    assert_eq!(h.other, vec![
        ("foo".to_string(), "1".to_string()),
        ("foo".to_string(), "2".to_string()),
    ]);
}

#[test]
fn unterminated_quote_is_a_bare_value() {
    let h = SignatureHeader::parse("algorithm=\"hs2019,headers=h,signature=s").unwrap();
    assert_eq!(h.algorithm, "\"hs2019");
    assert!(matches!(SignatureHeader::parse("algorithm=\"a b"), Err(Error::ParseSignatureHeader)));
}

#[test]
fn to_string_writes_fields_in_order() {
    let h = SignatureHeader::parse(
        r#"created=1, signature="c2ln", headers="(request-target) host", algorithm="rsa-sha256", keyId="k""#,
    )
    .unwrap();
    assert_eq!(
        h.to_string(),
        "keyId=k, algorithm=rsa-sha256, headers=\"(request-target) host\", signature=c2ln, created=1"
    );
    let no_key = SignatureHeader::parse(r#"algorithm="hs2019",headers="host",signature="a b""#).unwrap();
    assert_eq!(no_key.to_string(), "algorithm=hs2019, headers=host, signature=\"a b\"");
    let again = SignatureHeader::parse(&h.to_string()).unwrap();
    assert_eq!(again.to_string(), h.to_string());
}

#[test]
fn signature_bytes_decode_base64() {
    let h = SignatureHeader::parse(r#"algorithm="hs2019",headers="host",signature="aGVsbG8=""#).unwrap();
    assert_eq!(h.signature_bytes().unwrap(), b"hello".to_vec());
    let bad = SignatureHeader::parse(r#"algorithm="hs2019",headers="host",signature="***""#).unwrap();
    assert!(matches!(bad.signature_bytes(), Err(Error::SignatureBase64(_))));
}

#[test]
fn headers_without_words_is_missing() {
    assert!(matches!(
        SignatureHeader::parse(r#"algorithm="rsa-sha256",headers=" ",signature="AAAA""#),
        Err(Error::MissingField("headers"))
    ));
    assert!(matches!(
        SignatureHeader::parse("algorithm=rsa-sha256,headers=,signature=AAAA"),
        Err(Error::MissingField("headers"))
    ));
    assert!(matches!(
        SignatureHeader::parse("algorithm=rsa-sha256,headers=\"\n\t\",signature=AAAA"),
        Err(Error::MissingField("headers"))
    ));
}
