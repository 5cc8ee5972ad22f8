use unipotato::{Body, ParamMap, Query};

// ============ Query Parameter Parsing Tests ============

#[test]
fn query_parses_and_decodes_values() {
    let uri: hyper::Uri = "/users?id=42&name=John%20Doe&email=test%40example.com"
        .parse()
        .unwrap();
    let query = Query::from_uri(&uri);

    assert_eq!(query.get("id"), Some("42".to_string()));
    assert_eq!(query.get("name"), Some("John Doe".to_string()));
    assert_eq!(query.get("email"), Some("test@example.com".to_string()));
    assert!(query.has("id"));
    assert_eq!(query.get_or("missing", "fallback"), "fallback");
}

#[test]
fn query_ignores_malformed_pairs_without_equals() {
    let uri: hyper::Uri = "/search?q=rust&malformed&lang=en".parse().unwrap();
    let query = Query::from_uri(&uri);

    assert_eq!(query.get("q"), Some("rust".to_string()));
    assert_eq!(query.get("lang"), Some("en".to_string()));
    assert!(!query.has("malformed"));
}

#[test]
fn query_duplicate_keys_last_value_wins() {
    let uri: hyper::Uri = "/items?tag=rust&tag=web&tag=ml".parse().unwrap();
    let query = Query::from_uri(&uri);

    // Later pairs override earlier ones with the same key.
    assert_eq!(query.get("tag"), Some("ml".to_string()));
}

// ============ Body Parsing Tests ============

#[test]
fn body_json_and_form_parsing() {
    let json_body = Body {
        data: br#"{"count":3,"enabled":true}"#.to_vec(),
    };
    let parsed: serde_json::Value = json_body.json().unwrap();
    assert_eq!(parsed["count"], 3);
    assert_eq!(parsed["enabled"], true);

    let form_body = Body {
        data: b"name=John%20Doe&role=admin".to_vec(),
    };
    let form = form_body.form().unwrap();
    assert_eq!(form.get("name"), Some(&"John Doe".to_string()));
    assert_eq!(form.get("role"), Some(&"admin".to_string()));
}

#[test]
fn body_form_ignores_malformed_pairs() {
    let form_body = Body {
        data: b"name=John&malformed&role=admin".to_vec(),
    };

    let form = form_body.form().unwrap();
    assert_eq!(form.get("name"), Some(&"John".to_string()));
    assert_eq!(form.get("role"), Some(&"admin".to_string()));
    assert!(!form.contains_key("malformed"));
}

#[test]
fn body_empty_and_len_reflect_payload_size() {
    let empty = Body { data: Vec::new() };
    assert!(empty.is_empty());
    assert_eq!(empty.len(), 0);

    let non_empty = Body {
        data: b"abc".to_vec(),
    };
    assert!(!non_empty.is_empty());
    assert_eq!(non_empty.len(), 3);
}

// ============ Body Error Handling Tests ============

#[test]
fn body_reports_utf8_and_json_errors() {
    let invalid_utf8 = Body {
        data: vec![0xff, 0xfe, 0xfd],
    };
    assert!(invalid_utf8.as_str().is_err());

    let bad_json = Body {
        data: br#"{"count":}"#.to_vec(),
    };
    assert!(bad_json.json().is_err());
}

// ============ Further cases ============

#[test]
fn query_without_query_string_is_empty() {
    let uri: hyper::Uri = "/plain".parse().unwrap();
    let query = Query::from_uri(&uri);
    assert_eq!(query.get("a"), None);
    assert!(!query.has("a"));
    assert_eq!(query.get_or("a", "d"), "d");
    assert!(query.all().pairs().is_empty());
}

#[test]
fn query_repeated_access_gives_same_answers() {
    let uri: hyper::Uri = "/x?a=1&b=2".parse().unwrap();
    let query = Query::from_uri(&uri);
    assert_eq!(query.get("a"), Some("1".to_string()));
    assert_eq!(query.get("a"), Some("1".to_string()));
    assert!(query.has("b"));
    let all = query.all();
    assert_eq!(all.get("a"), Some(&"1".to_string()));
    assert_eq!(all.get("b"), Some(&"2".to_string()));
    assert_eq!(all.pairs().len(), 2);
}

#[test]
fn query_decoding_keeps_plus_and_stray_percent() {
    // '+' stays as it is; a '%' not followed by two hex digits is kept.
    let uri: hyper::Uri = "/q?a=1+2&b=50%25&c=%zz&d=%4&e=%4g".parse().unwrap();
    let query = Query::from_uri(&uri);
    assert_eq!(query.get("a"), Some("1+2".to_string()));
    assert_eq!(query.get("b"), Some("50%".to_string()));
    assert_eq!(query.get("c"), Some("%zz".to_string()));
    assert_eq!(query.get("d"), Some("%4".to_string()));
    assert_eq!(query.get("e"), Some("%4g".to_string()));
}

#[test]
fn query_value_decoding_to_invalid_utf8_becomes_empty() {
    let uri: hyper::Uri = "/q?bad=%ff&k%20ey=v".parse().unwrap();
    let query = Query::from_uri(&uri);
    assert_eq!(query.get("bad"), Some(String::new()));
    assert_eq!(query.get("k ey"), Some("v".to_string()));
}

#[test]
fn query_splits_at_first_equals() {
    let uri: hyper::Uri = "/q?expr=a=b&=empty".parse().unwrap();
    let query = Query::from_uri(&uri);
    assert_eq!(query.get("expr"), Some("a=b".to_string()));
    assert_eq!(query.get(""), Some("empty".to_string()));
}

#[test]
fn body_utf8_error_message_has_prefix() {
    let body = Body { data: vec![0x61, 0xff] };
    let err = body.as_str().unwrap_err();
    assert!(err.starts_with("Invalid UTF-8: "));
    let err = body.form().unwrap_err();
    assert!(err.starts_with("Invalid UTF-8: "));
    let err = body.json().unwrap_err();
    assert!(err.starts_with("Invalid UTF-8: "));
}

#[test]
fn body_json_error_message_has_prefix() {
    let body = Body { data: b"not json".to_vec() };
    let err = body.json().unwrap_err();
    assert!(err.starts_with("Failed to parse JSON: "));
}

#[test]
fn body_as_str_and_bytes() {
    let body = Body { data: "héllo".as_bytes().to_vec() };
    assert_eq!(body.as_str().unwrap(), "héllo");
    assert_eq!(body.as_bytes(), "héllo".as_bytes());
    assert_eq!(body.len(), 6);
}

#[test]
fn form_later_pair_wins_and_empty_text() {
    let body = Body { data: b"a=1&a=2".to_vec() };
    assert_eq!(body.form().unwrap().get("a"), Some(&"2".to_string()));
    let empty = Body { data: Vec::new() };
    assert!(empty.form().unwrap().pairs().is_empty());
}

#[test]
fn param_map_insert_replaces() {
    let mut m = ParamMap::new();
    assert_eq!(m.get("k"), None);
    m.insert("k".to_string(), "1".to_string());
    m.insert("j".to_string(), "2".to_string());
    m.insert("k".to_string(), "3".to_string());
    assert_eq!(m.get("k"), Some(&"3".to_string()));
    assert_eq!(m.get("j"), Some(&"2".to_string()));
    assert!(m.contains_key("j"));
    assert!(!m.contains_key("x"));
    assert_eq!(m.pairs().len(), 2);
    let c = m.clone();
    assert_eq!(c.get("k"), Some(&"3".to_string()));
}

#[test]
fn query_and_form_agree_on_the_same_text() {
    let text = "a=1&b=x%20y&a=3&junk&c=";
    let uri: hyper::Uri = format!("/p?{}", text).parse().unwrap();
    let query = Query::from_uri(&uri);
    let form = Body { data: text.as_bytes().to_vec() }.form().unwrap();
    for key in ["a", "b", "c", "junk", "d"] {
        assert_eq!(query.get(key), form.get(key).cloned());
    }
    assert_eq!(query.all().pairs().len(), form.pairs().len());
}
