use horcrux::crypto::{derive_key, seal_shard, try_open_shard};
use horcrux::algorithm::decrypt::{decrypt_shards, try_decrypt_shards, unpackage};
use horcrux::algorithm::encrypt::{encrypt_shards, package};
use horcrux::algorithm::models::{EncryptedData, HorcruxError};

#[test]
fn key_is_the_first_half_of_the_hex_digest() {
    // sha256("hello") = 2cf24dba5fb0a30e26e83b2ac5b9e29e1b161e5c1fa7425e73043362938b9824
    assert_eq!(derive_key("hello"), b"2cf24dba5fb0a30e26e83b2ac5b9e29e".to_vec());
    assert_eq!(derive_key("hello").len(), 32);
}

#[test]
fn sealed_shard_carries_its_nonce_and_opens() {
    let key = derive_key("secret");
    let nonce = [7u8; 24];
    let sealed = seal_shard(b"{\"id\":1}", &nonce, &key);
    assert_eq!(sealed.nonce, "BwcHBwcHBwcHBwcHBwcHBwcHBwcHBwcH");
    assert_eq!(horcrux::b64::decode(&sealed.encrypted_data).unwrap().len(), 8 + 16);
    let opened = try_open_shard(&sealed, &key).unwrap().unwrap();
    assert_eq!(opened, b"{\"id\":1}".to_vec());
}

#[test]
fn encrypt_then_decrypt_gives_back_the_shards() {
    let shards = vec![
        "{\"id\":1,\"data\":\"aGVs\",\"replica_number\":1,\"total_shards\":2}".to_string(),
        "{\"id\":2,\"data\":\"bG8=\",\"replica_number\":1,\"total_shards\":2}".to_string(),
    ];
    let sealed = encrypt_shards(&shards, "passphrase");
    assert_eq!(sealed.len(), 2);
    assert_ne!(sealed[0].nonce, sealed[1].nonce);
    let opened = decrypt_shards(sealed, "passphrase").unwrap();
    let texts: Vec<String> = opened.into_iter().map(|b| String::from_utf8(b).unwrap()).collect();
    assert_eq!(texts, shards);
}

#[test]
fn wrong_key_is_refused() {
    let sealed = encrypt_shards(&vec!["x".to_string()], "right");
    assert!(matches!(decrypt_shards(sealed, "wrong"), Err(HorcruxError::DecryptionFailed)));
}

#[test]
fn bad_base64_in_a_sealed_shard_is_refused() {
    let bad_nonce = EncryptedData { encrypted_data: "AAAA".to_string(), nonce: "!!".to_string() };
    assert!(matches!(decrypt_shards(vec![bad_nonce], "k"), Err(HorcruxError::Base64(_))));
    let good = encrypt_shards(&vec!["x".to_string()], "k").remove(0);
    let bad_data = EncryptedData { encrypted_data: "!!".to_string(), nonce: good.nonce.clone() };
    assert!(matches!(decrypt_shards(vec![bad_data], "k"), Err(HorcruxError::Base64(_))));
}

#[test]
fn short_nonce_is_no_nonce() {
    let sealed = EncryptedData { encrypted_data: "AAAA".to_string(), nonce: "AAAA".to_string() };
    let key = derive_key("k");
    assert!(try_open_shard(&sealed, &key).is_none());
    assert!(try_decrypt_shards(&vec![sealed.clone()], "k").is_none());
    // A failing shard before it is reported first.
    let first = EncryptedData { encrypted_data: "!".to_string(), nonce: "!".to_string() };
    assert!(matches!(try_decrypt_shards(&vec![first, sealed], "k"), Some(Err(HorcruxError::Base64(_)))));
}

#[test]
fn decrypting_nothing_gives_nothing() {
    assert_eq!(decrypt_shards(vec![], "k").unwrap().len(), 0);
}

#[test]
fn package_then_unpackage_gives_back_the_bytes() {
    let texts = vec!["{\"encrypted_data\":\"AA==\",\"nonce\":\"AQ==\"}".to_string(), "é".to_string()];
    let packaged = package(texts.clone());
    assert_eq!(packaged[1], "w6k=");
    let back = unpackage(packaged).unwrap();
    assert_eq!(back[0], texts[0].as_bytes().to_vec());
    assert_eq!(back[1], vec![0xc3, 0xa9]);
}

#[test]
fn unpackage_refuses_bad_text() {
    assert!(matches!(unpackage(vec!["YQ==".to_string(), "Y".to_string()]), Err(HorcruxError::Base64(_))));
}
