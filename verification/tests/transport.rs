use horcrux::hashes::{decode_hashes, encode_hashes, split_commas};
use horcrux::algorithm::models::HorcruxError;
use horcrux::steg::{alpha_message, strip_padding, try_alpha_message};

#[test]
fn hash_list_is_joined_then_encoded() {
    let hashes = vec!["Qm1".to_string(), "Qm2".to_string()];
    assert_eq!(encode_hashes(&hashes), "UW0xLFFtMg==");
    assert_eq!(decode_hashes("UW0xLFFtMg==").unwrap(), hashes);
}

#[test]
fn hash_list_round_trip() {
    let hashes = vec![
        "QmXoypizjW3WknFiJnKLwHCnL72vedxjQkDDP1mXWo6uco".to_string(),
        "QmYwAPJzv5CZsnA625s3Xf2nemtYgPpHdWEz79ojWnPbdG".to_string(),
        "QmT78zSuBmuS4z925WZfrqQ1qHaJ56DQaTfyMUF7F8ff5o".to_string(),
    ];
    assert_eq!(decode_hashes(&encode_hashes(&hashes)).unwrap(), hashes);
}

#[test]
fn empty_hash_list_reads_as_one_empty_hash() {
    assert_eq!(encode_hashes(&vec![]), "");
    assert_eq!(decode_hashes("").unwrap(), vec!["".to_string()]);
}

#[test]
fn bad_hash_list_is_refused() {
    assert!(matches!(decode_hashes("@@@@"), Err(HorcruxError::Base64(_))));
    assert!(matches!(decode_hashes("/w=="), Err(HorcruxError::Utf8(_))));
}

#[test]
fn splits_at_every_comma() {
    assert_eq!(split_commas("a,b,,c,"), vec!["a", "b", "", "c", ""]);
    assert_eq!(split_commas("é,ü"), vec!["é", "ü"]);
}

#[test]
fn alpha_padding_is_dropped() {
    assert_eq!(strip_padding(&vec![72, 255, 105, 255, 255]), vec![72, 105]);
    assert_eq!(alpha_message(vec![255, 72, 105, 255]), "Hi");
}

#[test]
fn alpha_bytes_that_are_not_text_are_refused() {
    assert!(try_alpha_message(vec![0xc3, 255]).is_none());
    assert_eq!(try_alpha_message(vec![0xc3, 255, 0xa9]).unwrap(), "é");
}
