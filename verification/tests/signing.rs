//! The signer against an independently computed header, and the encoding
//! and digit primitives it rests on.

use base64::Engine;
use hmac::{Hmac, KeyInit, Mac};
use sha1::Sha1;

use twitter_delete::digits::{i64_to_dec, parse_u64, u64_to_dec};
use twitter_delete::encode::percent_encode;
use twitter_delete::sign::{create_auth, create_auth_at};
use twitter_delete::Access;

fn pct(s: &[u8]) -> String {
    let mut out = String::new();
    for &b in s {
        let unreserved = b.is_ascii_alphanumeric() || b == b'-' || b == b'.' || b == b'_'
            || b == b'~';
        if unreserved {
            out.push(b as char);
        } else {
            out.push('%');
            out.push_str(&format!("{:02X}", b));
        }
    }
    out
}

fn fixture() -> Access {
    Access {
        api_key: b"xvz1evFS4wEEPTGEFPHBog".to_vec(),
        api_secret: b"kAcSOqF21Fu85e7zjz7ZN2U4ZRhfV3WpwPAoE3Z7kBw".to_vec(),
        access: b"370773112-GmHxMAgYyLbNEtIKZeRNFsMKPR9EyMZeS9weJAEb".to_vec(),
        access_secret: b"LswwdoUaIvS8ltyTt5jkRh4J50vUPVVHtR2YPi5kE".to_vec(),
    }
}

#[test]
fn percent_encoding_matches_reserved_character_rules() {
    assert_eq!(
        percent_encode(b"Ladies + Gentlemen"),
        b"Ladies%20%2B%20Gentlemen".to_vec()
    );
    assert_eq!(percent_encode(b"AZaz09-._~"), b"AZaz09-._~".to_vec());
    assert_eq!(percent_encode(b""), Vec::<u8>::new());
    // A snowman: three UTF-8 bytes, each escaped.
    assert_eq!(percent_encode("\u{2603}".as_bytes()), b"%E2%98%83".to_vec());
    assert_eq!(percent_encode(b"a/b?c=d&e"), b"a%2Fb%3Fc%3Dd%26e".to_vec());
}

#[test]
fn decimal_formatting_and_parsing() {
    assert_eq!(u64_to_dec(0), b"0".to_vec());
    assert_eq!(u64_to_dec(1234567890), b"1234567890".to_vec());
    assert_eq!(u64_to_dec(u64::MAX), b"18446744073709551615".to_vec());
    assert_eq!(i64_to_dec(-5), b"-5".to_vec());
    assert_eq!(i64_to_dec(i64::MIN), b"-9223372036854775808".to_vec());
    assert_eq!(i64_to_dec(1318622958), b"1318622958".to_vec());

    assert_eq!(parse_u64(b"0"), Some(0));
    assert_eq!(parse_u64(b"18446744073709551615"), Some(u64::MAX));
    assert_eq!(parse_u64(b"18446744073709551616"), None);
    assert_eq!(parse_u64(b""), None);
    assert_eq!(parse_u64(b"12a"), None);
    assert_eq!(parse_u64(b"-3"), None);
}

#[test]
fn signature_matches_independent_computation() {
    let keys = fixture();
    let url = b"https://api.twitter.com/1.1/statuses/lookup.json";
    let method = b"POST";
    let params: Vec<(Vec<u8>, Vec<u8>)> = vec![
        (b"id".to_vec(), b"123,456".to_vec()),
        (b"map".to_vec(), b"true".to_vec()),
    ];
    let nonce = b"kYjzVBB8Y0ZFabxSWbWovY3uYSQ2pTgmZeNu2VS4cg".to_vec();
    let ts: i64 = 1318622958;

    let got = create_auth_at(&keys, url, method, &params, &nonce, ts);

    // The same header, built independently with plain string operations and
    // the crypto crates directly.
    let mut auth: Vec<(String, String)> = vec![
        (pct(b"oauth_consumer_key"), pct(&keys.api_key)),
        (pct(b"oauth_nonce"), pct(&nonce)),
        (pct(b"oauth_signature_method"), pct(b"HMAC-SHA1")),
        (pct(b"oauth_timestamp"), pct(ts.to_string().as_bytes())),
        (pct(b"oauth_token"), pct(&keys.access)),
        (pct(b"oauth_version"), pct(b"1.0")),
    ];
    let mut sig_list = auth.clone();
    for (k, v) in &params {
        sig_list.push((pct(k), pct(v)));
    }
    sig_list.sort();
    let param_string = sig_list
        .iter()
        .map(|(k, v)| format!("{k}={v}"))
        .collect::<Vec<_>>()
        .join("&");
    let base = format!(
        "{}&{}&{}",
        "POST",
        pct(url),
        pct(param_string.as_bytes())
    );
    let skey = format!("{}&{}", pct(&keys.api_secret), pct(&keys.access_secret));
    let mut mac = Hmac::<Sha1>::new_from_slice(skey.as_bytes()).unwrap();
    mac.update(base.as_bytes());
    let sig = base64::engine::general_purpose::STANDARD.encode(mac.finalize().into_bytes());
    auth.sort();
    auth.push(("oauth_signature".to_string(), pct(sig.as_bytes())));
    let expected = format!(
        "Oauth {}",
        auth.iter()
            .map(|(k, v)| format!("{k}=\"{v}\""))
            .collect::<Vec<_>>()
            .join(", ")
    );

    assert_eq!(String::from_utf8(got).unwrap(), expected);
}

#[test]
fn signing_is_deterministic_with_nonce_and_timestamp_held_fixed() {
    let keys = fixture();
    let url = b"https://api.twitter.com/1.1/statuses/destroy/123.json";
    let params: Vec<(Vec<u8>, Vec<u8>)> = Vec::new();
    let nonce = b"abcDEF0123456789abcDEF0123456789".to_vec();
    let a = create_auth_at(&keys, url, b"POST", &params, &nonce, 1700000000);
    let b = create_auth_at(&keys, url, b"POST", &params, &nonce, 1700000000);
    assert_eq!(a, b);
}

#[test]
fn fresh_nonces_give_different_headers() {
    let keys = fixture();
    let url = b"https://api.twitter.com/1.1/statuses/lookup.json";
    let params: Vec<(Vec<u8>, Vec<u8>)> = vec![(b"id".to_vec(), b"1".to_vec())];
    let (h1, n1, _) = create_auth(&keys, url, b"POST", &params);
    let (h2, n2, _) = create_auth(&keys, url, b"POST", &params);
    assert_eq!(n1.len(), 32);
    assert!(n1.iter().all(|b| b.is_ascii_alphanumeric()));
    assert_ne!(n1, n2, "two fresh nonces should differ");
    assert_ne!(h1, h2, "headers signed with different nonces should differ");
}

#[test]
fn header_carries_scheme_and_sorted_parameters() {
    let keys = fixture();
    let url = b"https://api.twitter.com/1.1/statuses/lookup.json";
    let params: Vec<(Vec<u8>, Vec<u8>)> = Vec::new();
    let nonce = b"N0".to_vec();
    let header = String::from_utf8(create_auth_at(&keys, url, b"POST", &params, &nonce, 42))
        .unwrap();
    assert!(header.starts_with("Oauth oauth_consumer_key=\""));
    let keys_in_order: Vec<&str> = header["Oauth ".len()..]
        .split(", ")
        .map(|kv| kv.split('=').next().unwrap())
        .collect();
    assert_eq!(
        keys_in_order,
        vec![
            "oauth_consumer_key",
            "oauth_nonce",
            "oauth_signature_method",
            "oauth_timestamp",
            "oauth_token",
            "oauth_version",
            "oauth_signature",
        ]
    );
}
