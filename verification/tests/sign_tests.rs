use json_i18n::tencent_sign::{build_payload, sign_request, sign_request_with_date};

#[test]
fn payload_matches_serde_output_exactly() {
    let text = "He said \"hi\",\nthen left\t\u{1} fin";
    let payload = build_payload(text, "en", "zh");

    let mut map = serde_json::Map::new();
    map.insert("ProjectId".to_string(), serde_json::Value::from(0));
    map.insert("Source".to_string(), serde_json::Value::from("en"));
    map.insert("SourceText".to_string(), serde_json::Value::from(text));
    map.insert("Target".to_string(), serde_json::Value::from("zh"));
    let expected = serde_json::to_string(&serde_json::Value::Object(map)).unwrap();

    assert_eq!(payload, expected);
}

#[test]
fn payload_round_trips_through_a_parser() {
    let text = "curly {name} stays, backslash \\ too";
    let payload = build_payload(text, "en", "de");
    let v: serde_json::Value = serde_json::from_str(&payload).unwrap();
    assert_eq!(v["SourceText"].as_str().unwrap(), text);
    assert_eq!(v["Source"].as_str().unwrap(), "en");
    assert_eq!(v["Target"].as_str().unwrap(), "de");
    assert_eq!(v["ProjectId"].as_i64().unwrap(), 0);
}

#[test]
fn timestamp_is_written_in_decimal() {
    let req = sign_request_with_date("id", "key", "2023-11-14", "en", "zh", "hi", 1700000000);
    assert_eq!(req.timestamp, "1700000000");
}

#[test]
fn authorization_carries_scope_and_hex_signature() {
    let req = sign_request("AKIDtest", "secret", "en", "zh", "hello", 0).unwrap();
    assert!(req
        .authorization
        .starts_with("TC3-HMAC-SHA256 Credential=AKIDtest/1970-01-01/tmt/tc3_request, SignedHeaders=content-type;host;x-tc-action, Signature="));
    let sig = req.authorization.rsplit('=').next().unwrap();
    assert_eq!(sig.len(), 64);
    assert!(sig.chars().all(|c| c.is_ascii_hexdigit() && !c.is_ascii_uppercase()));
}

fn hmac(key: &[u8], msg: &[u8]) -> Vec<u8> {
    let k = ring::hmac::Key::new(ring::hmac::HMAC_SHA256, key);
    ring::hmac::sign(&k, msg).as_ref().to_vec()
}

#[test]
fn authorization_matches_an_independent_construction() {
    let (id, key, sl, dl, text, ts) = ("AKIDzz", "topsecret", "en", "fr", "good {n} day", 1700000000u64);
    let req = sign_request(id, key, sl, dl, text, ts).unwrap();

    let date = chrono::DateTime::from_timestamp(ts as i64, 0)
        .unwrap()
        .format("%Y-%m-%d")
        .to_string();
    let payload = build_payload(text, sl, dl);
    let payload_hash = hex::encode(ring::digest::digest(&ring::digest::SHA256, payload.as_bytes()));
    let canonical = format!(
        "POST\n/\n\ncontent-type:application/json; charset=utf-8\nhost:tmt.tencentcloudapi.com\nx-tc-action:texttranslate\n\ncontent-type;host;x-tc-action\n{payload_hash}"
    );
    let scope = format!("{date}/tmt/tc3_request");
    let string_to_sign = format!(
        "TC3-HMAC-SHA256\n{ts}\n{scope}\n{}",
        hex::encode(ring::digest::digest(&ring::digest::SHA256, canonical.as_bytes()))
    );
    let k_date = hmac(format!("TC3{key}").as_bytes(), date.as_bytes());
    let k_service = hmac(&k_date, b"tmt");
    let k_signing = hmac(&k_service, b"tc3_request");
    let signature = hex::encode(hmac(&k_signing, string_to_sign.as_bytes()));
    let expected = format!(
        "TC3-HMAC-SHA256 Credential={id}/{scope}, SignedHeaders=content-type;host;x-tc-action, Signature={signature}"
    );

    assert_eq!(req.authorization, expected);
}

#[test]
fn signing_is_deterministic_and_key_sensitive() {
    let a = sign_request("id", "k1", "en", "zh", "hello", 86400).unwrap();
    let b = sign_request("id", "k1", "en", "zh", "hello", 86400).unwrap();
    let c = sign_request("id", "k2", "en", "zh", "hello", 86400).unwrap();
    assert_eq!(a.authorization, b.authorization);
    assert_ne!(a.authorization, c.authorization);
    assert!(a.authorization.contains("/1970-01-02/"));
}
