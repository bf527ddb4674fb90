//! Request signing for the Tencent cloud translation API (the TC3 scheme):
//! the payload and the authorization header are assembled here, with exact
//! contracts, over named results of the digest primitives.

use vstd::prelude::*;

verus! {

/// The lowercase hexadecimal digit for `n`.
pub open spec fn hex_digit(n: int) -> char {
    if n == 0 {
        '0'
    } else if n == 1 {
        '1'
    } else if n == 2 {
        '2'
    } else if n == 3 {
        '3'
    } else if n == 4 {
        '4'
    } else if n == 5 {
        '5'
    } else if n == 6 {
        '6'
    } else if n == 7 {
        '7'
    } else if n == 8 {
        '8'
    } else if n == 9 {
        '9'
    } else if n == 10 {
        'a'
    } else if n == 11 {
        'b'
    } else if n == 12 {
        'c'
    } else if n == 13 {
        'd'
    } else if n == 14 {
        'e'
    } else {
        'f'
    }
}

/// Lowercase hexadecimal of a byte string, two digits per byte, high
/// nibble first.
pub open spec fn hex_of(b: Seq<u8>) -> Seq<char>
    decreases b.len(),
{
    if b.len() == 0 {
        Seq::empty()
    } else {
        seq![hex_digit(b[0] as int / 16), hex_digit(b[0] as int % 16)] + hex_of(b.drop_first())
    }
}

/// The decimal digits of `n`, most significant first.
pub open spec fn dec_of(n: int) -> Seq<char>
    decreases n,
{
    if n < 10 {
        seq![hex_digit(if n < 0 {
            0
        } else {
            n
        })]
    } else {
        dec_of(n / 10) + seq![hex_digit(n % 10)]
    }
}

/// A one-character string for the digit `n`.
fn hex_digit_str(n: u8) -> (r: &'static str)
    requires
        n < 16,
    ensures
        r@ == seq![hex_digit(n as int)],
{
    let r = match n {
        0 => "0",
        1 => "1",
        2 => "2",
        3 => "3",
        4 => "4",
        5 => "5",
        6 => "6",
        7 => "7",
        8 => "8",
        9 => "9",
        10 => "a",
        11 => "b",
        12 => "c",
        13 => "d",
        14 => "e",
        _ => "f",
    };
    proof {
        reveal_strlit("0");
        reveal_strlit("1");
        reveal_strlit("2");
        reveal_strlit("3");
        reveal_strlit("4");
        reveal_strlit("5");
        reveal_strlit("6");
        reveal_strlit("7");
        reveal_strlit("8");
        reveal_strlit("9");
        reveal_strlit("a");
        reveal_strlit("b");
        reveal_strlit("c");
        reveal_strlit("d");
        reveal_strlit("e");
        reveal_strlit("f");
        assert(r@ =~= seq![hex_digit(n as int)]);
    }
    r
}

/// The decimal form of `n`.
pub fn u64_dec(n: u64) -> (r: String)
    ensures
        r@ == dec_of(n as int),
    decreases n,
{
    if n < 10 {
        hex_digit_str(n as u8).to_owned()
    } else {
        proof {
            assert(n as int / 10 < n as int) by (nonlinear_arith)
                requires
                    n >= 10,
            ;
        }
        let mut s = u64_dec(n / 10);
        s.append(hex_digit_str((n % 10) as u8));
        s
    }
}

/// Lowercase hexadecimal of a byte string: the executable form of
/// [`hex_of`].
fn bytes_hex(b: &[u8]) -> (r: String)
    ensures
        r@ == hex_of(b@),
{
    let mut r = String::new();
    let mut i: usize = 0;
    while i < b.len()
        invariant
            i <= b@.len(),
            r@ == hex_of(b@.take(i as int)),
        decreases b@.len() - i,
    {
        let byte = b[i];
        r.append(hex_digit_str(byte / 16));
        r.append(hex_digit_str(byte % 16));
        i += 1;
        proof {
            lemma_hex_of_snoc(b@.take(i as int - 1), b@[i as int - 1]);
            assert(b@.take(i as int - 1).push(b@[i as int - 1]) =~= b@.take(i as int));
        }
    }
    proof {
        assert(b@.take(b@.len() as int) =~= b@);
    }
    r
}

proof fn lemma_hex_of_snoc(b: Seq<u8>, x: u8)
    ensures
        hex_of(b.push(x)) == hex_of(b) + seq![
            hex_digit(x as int / 16),
            hex_digit(x as int % 16),
        ],
    decreases b.len(),
{
    if b.len() == 0 {
        let e = Seq::<u8>::empty();
        assert(b =~= e);
        assert(b.push(x).drop_first() =~= e);
        assert(hex_of(e) == Seq::<char>::empty());
        assert(hex_of(b.push(x)) =~= seq![hex_digit(x as int / 16), hex_digit(x as int % 16)]);
        assert(hex_of(b) + seq![hex_digit(x as int / 16), hex_digit(x as int % 16)] =~= seq![
            hex_digit(x as int / 16),
            hex_digit(x as int % 16),
        ]);
    } else {
        lemma_hex_of_snoc(b.drop_first(), x);
        assert(b.push(x).drop_first() =~= b.drop_first().push(x));
        assert(hex_of(b.push(x)) =~= hex_of(b) + seq![
            hex_digit(x as int / 16),
            hex_digit(x as int % 16),
        ]);
    }
}

/// How one character is written inside a JSON string: `"` and `\` get a
/// backslash, the named control characters their short escape, the other
/// control characters a `\u00..` escape, everything else stands as it is.
pub open spec fn escape_char(c: char) -> Seq<char> {
    if c == '"' {
        seq!['\\', '"']
    } else if c == '\\' {
        seq!['\\', '\\']
    } else if c == '\u{8}' {
        seq!['\\', 'b']
    } else if c == '\t' {
        seq!['\\', 't']
    } else if c == '\n' {
        seq!['\\', 'n']
    } else if c == '\u{c}' {
        seq!['\\', 'f']
    } else if c == '\r' {
        seq!['\\', 'r']
    } else if (c as u32) < 0x20 {
        seq!['\\', 'u', '0', '0', hex_digit(c as int / 16), hex_digit(c as int % 16)]
    } else {
        seq![c]
    }
}

/// A string written inside JSON quotes, character by character.
pub open spec fn escape_spec(s: Seq<char>) -> Seq<char>
    decreases s.len(),
{
    if s.len() == 0 {
        Seq::empty()
    } else {
        escape_char(s[0]) + escape_spec(s.drop_first())
    }
}

proof fn lemma_escape_snoc(s: Seq<char>, c: char)
    ensures
        escape_spec(s.push(c)) == escape_spec(s) + escape_char(c),
    decreases s.len(),
{
    if s.len() == 0 {
        let e = Seq::<char>::empty();
        assert(s =~= e);
        assert(s.push(c).drop_first() =~= e);
        assert(escape_spec(e) == Seq::<char>::empty());
        assert(escape_spec(s.push(c)) =~= escape_char(c));
        assert(escape_spec(s) + escape_char(c) =~= escape_char(c));
    } else {
        lemma_escape_snoc(s.drop_first(), c);
        assert(s.push(c).drop_first() =~= s.drop_first().push(c));
        assert(escape_spec(s.push(c)) =~= escape_spec(s) + escape_char(c));
    }
}

/// Write `s` as the body of a JSON string: the executable form of
/// [`escape_spec`].
fn escape_json(s: &str) -> (r: String)
    ensures
        r@ == escape_spec(s@),
{
    let n = s.unicode_len();
    let mut r = String::new();
    let mut i: usize = 0;
    proof {
        reveal_strlit("\\\"");
        reveal_strlit("\\\\");
        reveal_strlit("\\b");
        reveal_strlit("\\t");
        reveal_strlit("\\n");
        reveal_strlit("\\f");
        reveal_strlit("\\r");
        reveal_strlit("\\u00");
    }
    while i < n
        invariant
            n == s@.len(),
            i <= n,
            r@ == escape_spec(s@.take(i as int)),
        decreases n - i,
    {
        let c = s.get_char(i);
        let code = c as u32;
        if c == '"' {
            let piece = "\\\"";
            proof {
                reveal_strlit("\\\"");
                assert(piece@ =~= escape_char(c));
            }
            r.append(piece);
        } else if c == '\\' {
            let piece = "\\\\";
            proof {
                reveal_strlit("\\\\");
                assert(piece@ =~= escape_char(c));
            }
            r.append(piece);
        } else if code == 0x8 {
            let piece = "\\b";
            proof {
                reveal_strlit("\\b");
                assert(piece@ =~= escape_char(c));
            }
            r.append(piece);
        } else if code == 0x9 {
            let piece = "\\t";
            proof {
                reveal_strlit("\\t");
                assert(piece@ =~= escape_char(c));
            }
            r.append(piece);
        } else if code == 0xA {
            let piece = "\\n";
            proof {
                reveal_strlit("\\n");
                assert(piece@ =~= escape_char(c));
            }
            r.append(piece);
        } else if code == 0xC {
            let piece = "\\f";
            proof {
                reveal_strlit("\\f");
                assert(piece@ =~= escape_char(c));
            }
            r.append(piece);
        } else if code == 0xD {
            let piece = "\\r";
            proof {
                reveal_strlit("\\r");
                assert(piece@ =~= escape_char(c));
            }
            r.append(piece);
        } else if code < 0x20 {
            let prefix = "\\u00";
            proof {
                reveal_strlit("\\u00");
            }
            r.append(prefix);
            r.append(hex_digit_str((code / 16) as u8));
            r.append(hex_digit_str((code % 16) as u8));
            proof {
                assert(prefix@ + seq![hex_digit(code as int / 16)] + seq![
                    hex_digit(code as int % 16),
                ] =~= escape_char(c));
            }
        } else {
            r.append(s.substring_char(i, i + 1));
            proof {
                assert(s@.subrange(i as int, i + 1 as int) =~= seq![s@[i as int]]);
                assert(seq![s@[i as int]] =~= escape_char(c));
            }
        }
        i += 1;
        proof {
            lemma_escape_snoc(s@.take(i as int - 1), s@[i as int - 1]);
            assert(s@.take(i as int - 1).push(s@[i as int - 1]) =~= s@.take(i as int));
        }
    }
    proof {
        assert(s@.take(n as int) =~= s@);
    }
    r
}

/// The SHA-256 digest of a byte string.
pub uninterp spec fn sha256_of(data: Seq<u8>) -> Seq<u8>;

/// The HMAC-SHA-256 tag of a message under a key.
pub uninterp spec fn hmac_sha256_of(key: Seq<u8>, msg: Seq<u8>) -> Seq<u8>;

/// The UTC calendar date of a Unix timestamp, written `%Y-%m-%d`.
pub uninterp spec fn utc_date_of(timestamp: u64) -> Seq<char>;

/// Relies on ring::digest::digest with SHA256: the digest is a function of
/// the input bytes alone.
#[verifier::external_body]
fn sha256(data: &[u8]) -> (r: Vec<u8>)
    ensures
        r@ == sha256_of(data@),
{
    ring::digest::digest(&ring::digest::SHA256, data).as_ref().to_vec()
}

/// Relies on ring::hmac::Key::new and ring::hmac::sign with HMAC_SHA256:
/// the tag is a function of the key and message bytes alone.
#[verifier::external_body]
fn hmac_sha256(key: &[u8], msg: &[u8]) -> (r: Vec<u8>)
    ensures
        r@ == hmac_sha256_of(key@, msg@),
{
    let k = ring::hmac::Key::new(ring::hmac::HMAC_SHA256, key);
    ring::hmac::sign(&k, msg).as_ref().to_vec()
}

/// Relies on chrono::DateTime::from_timestamp and its `%Y-%m-%d`
/// formatting: the date is UTC, locale-free, a function of the timestamp
/// alone; out-of-range timestamps give `None`.
#[verifier::external_body]
fn utc_date(timestamp: u64) -> (r: Option<String>)
    ensures
        r matches Some(s) ==> s@ == utc_date_of(timestamp),
{
    match i64::try_from(timestamp) {
        Ok(secs) => chrono::DateTime::from_timestamp(secs, 0).map(
            |d| d.format("%Y-%m-%d").to_string(),
        ),
        Err(_) => None,
    }
}

/// The request body: one JSON object with the project id, the two
/// language codes and the text, keys in serde's sorted order.
pub open spec fn payload_spec(src_text: Seq<char>, sl: Seq<char>, dl: Seq<char>) -> Seq<char> {
    "{\"ProjectId\":0,\"Source\":\""@ + escape_spec(sl) + "\",\"SourceText\":\""@ + escape_spec(
        src_text,
    ) + "\",\"Target\":\""@ + escape_spec(dl) + "\"}"@
}

/// Everything of the canonical request that does not depend on the
/// payload: method, path, headers and signed-header list.
pub open spec fn canonical_prefix() -> Seq<char> {
    "POST\n/\n\ncontent-type:application/json; charset=utf-8\nhost:tmt.tencentcloudapi.com\nx-tc-action:texttranslate\n\ncontent-type;host;x-tc-action\n"@
}

/// The credential scope: the date, the service, and the scheme tag.
pub open spec fn credential_scope_spec(date: Seq<char>) -> Seq<char> {
    date + "/tmt/tc3_request"@
}

/// The string that is signed: scheme, timestamp, scope, and the hex
/// digest of the canonical request.
pub open spec fn string_to_sign_spec(
    date: Seq<char>,
    timestamp: u64,
    src_text: Seq<char>,
    sl: Seq<char>,
    dl: Seq<char>,
) -> Seq<char> {
    "TC3-HMAC-SHA256\n"@ + dec_of(timestamp as int) + "\n"@ + credential_scope_spec(date) + "\n"@
        + hex_of(
        sha256_of(
            vstd::utf8::encode_utf8(
                canonical_prefix() + hex_of(
                    sha256_of(vstd::utf8::encode_utf8(payload_spec(src_text, sl, dl))),
                ),
            ),
        ),
    )
}

/// The request signature: the string to sign under the derived key, in
/// lowercase hex.
pub open spec fn signature_spec(
    key: Seq<char>,
    date: Seq<char>,
    timestamp: u64,
    src_text: Seq<char>,
    sl: Seq<char>,
    dl: Seq<char>,
) -> Seq<char> {
    hex_of(
        hmac_sha256_of(
            hmac_sha256_of(
                hmac_sha256_of(
                    hmac_sha256_of(
                        vstd::utf8::encode_utf8("TC3"@ + key),
                        vstd::utf8::encode_utf8(date),
                    ),
                    vstd::utf8::encode_utf8("tmt"@),
                ),
                vstd::utf8::encode_utf8("tc3_request"@),
            ),
            vstd::utf8::encode_utf8(string_to_sign_spec(date, timestamp, src_text, sl, dl)),
        ),
    )
}

/// The authorization header for a request.
pub open spec fn authorization_spec(
    id: Seq<char>,
    key: Seq<char>,
    date: Seq<char>,
    timestamp: u64,
    src_text: Seq<char>,
    sl: Seq<char>,
    dl: Seq<char>,
) -> Seq<char> {
    "TC3-HMAC-SHA256 Credential="@ + id + "/"@ + credential_scope_spec(date)
        + ", SignedHeaders=content-type;host;x-tc-action, Signature="@ + signature_spec(
        key,
        date,
        timestamp,
        src_text,
        sl,
        dl,
    )
}

/// What a caller needs to send one translation request: the body, the
/// authorization header, and the timestamp header.
pub struct SignedRequest {
    pub payload: String,
    pub authorization: String,
    pub timestamp: String,
}

/// The request body for one translation call.
pub fn build_payload(src_text: &str, src_lang: &str, dst_lang: &str) -> (r: String)
    ensures
        r@ == payload_spec(src_text@, src_lang@, dst_lang@),
{
    let mut r = "{\"ProjectId\":0,\"Source\":\"".to_owned();
    r.append(escape_json(src_lang).as_str());
    r.append("\",\"SourceText\":\"");
    r.append(escape_json(src_text).as_str());
    r.append("\",\"Target\":\"");
    r.append(escape_json(dst_lang).as_str());
    r.append("\"}");
    r
}

/// Sign one translation request, given the request's UTC date.
pub fn sign_request_with_date(
    secret_id: &str,
    secret_key: &str,
    date: &str,
    src_lang: &str,
    dst_lang: &str,
    src_text: &str,
    timestamp: u64,
) -> (r: SignedRequest)
    ensures
        r.payload@ == payload_spec(src_text@, src_lang@, dst_lang@),
        r.authorization@ == authorization_spec(
            secret_id@,
            secret_key@,
            date@,
            timestamp,
            src_text@,
            src_lang@,
            dst_lang@,
        ),
        r.timestamp@ == dec_of(timestamp as int),
{
    let payload = build_payload(src_text, src_lang, dst_lang);
    let payload_hash = bytes_hex(sha256(payload.as_str().as_bytes()).as_slice());
    let mut canonical =
        "POST\n/\n\ncontent-type:application/json; charset=utf-8\nhost:tmt.tencentcloudapi.com\nx-tc-action:texttranslate\n\ncontent-type;host;x-tc-action\n".to_owned();
    canonical.append(payload_hash.as_str());
    let hashed_canonical = bytes_hex(sha256(canonical.as_str().as_bytes()).as_slice());
    let ts_str = u64_dec(timestamp);
    let mut scope = date.to_owned();
    scope.append("/tmt/tc3_request");
    let mut sts = "TC3-HMAC-SHA256\n".to_owned();
    sts.append(ts_str.as_str());
    sts.append("\n");
    sts.append(scope.as_str());
    sts.append("\n");
    sts.append(hashed_canonical.as_str());
    let mut key_init = "TC3".to_owned();
    key_init.append(secret_key);
    let key_date = hmac_sha256(key_init.as_str().as_bytes(), date.as_bytes());
    let key_service = hmac_sha256(key_date.as_slice(), "tmt".as_bytes());
    let key_signing = hmac_sha256(key_service.as_slice(), "tc3_request".as_bytes());
    let signature = bytes_hex(
        hmac_sha256(key_signing.as_slice(), sts.as_str().as_bytes()).as_slice(),
    );
    let mut authorization = "TC3-HMAC-SHA256 Credential=".to_owned();
    authorization.append(secret_id);
    authorization.append("/");
    authorization.append(scope.as_str());
    authorization.append(", SignedHeaders=content-type;host;x-tc-action, Signature=");
    authorization.append(signature.as_str());
    SignedRequest { payload, authorization, timestamp: ts_str }
}

/// Sign one translation request, taking the date from the timestamp;
/// `None` when the timestamp lies outside the representable dates.
pub fn sign_request(
    secret_id: &str,
    secret_key: &str,
    src_lang: &str,
    dst_lang: &str,
    src_text: &str,
    timestamp: u64,
) -> (r: Option<SignedRequest>)
    ensures
        r matches Some(req) ==> {
            &&& req.payload@ == payload_spec(src_text@, src_lang@, dst_lang@)
            &&& req.authorization@ == authorization_spec(
                secret_id@,
                secret_key@,
                utc_date_of(timestamp),
                timestamp,
                src_text@,
                src_lang@,
                dst_lang@,
            )
            &&& req.timestamp@ == dec_of(timestamp as int)
        },
{
    match utc_date(timestamp) {
        Some(date) => Some(
            sign_request_with_date(
                secret_id,
                secret_key,
                date.as_str(),
                src_lang,
                dst_lang,
                src_text,
                timestamp,
            ),
        ),
        None => None,
    }
}

} // verus!
