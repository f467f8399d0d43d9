use horcrux::b64::{decode, encode};
use horcrux::algorithm::decrypt::shards_to_str;
use horcrux::algorithm::encrypt::str_to_shards;
use horcrux::algorithm::models::{HorcruxError, Shard};

/// The run length the program asks for: the byte length over the shard count in f32,
/// rounded up.
fn run_length(text: &str, total: usize) -> usize {
    (text.len() as f32 / total as f32).ceil() as usize
}

fn shard(id: usize, data: &str, replica_number: usize, total_shards: usize) -> Shard {
    Shard { id, data: data.to_string(), replica_number, total_shards }
}

#[test]
fn base64_encodes_with_padding() {
    assert_eq!(encode(b"hello"), "aGVsbG8=");
    assert_eq!(encode(b"hell"), "aGVsbA==");
    assert_eq!(encode(b"rld"), "cmxk");
    assert_eq!(encode(b""), "");
}

#[test]
fn base64_decodes_canonical_text_only() {
    assert_eq!(decode("aGVsbG8=").unwrap(), b"hello".to_vec());
    assert_eq!(decode("").unwrap(), Vec::<u8>::new());
    assert!(matches!(decode("aGVsbG8"), Err(HorcruxError::Base64(_))));
    assert!(matches!(decode("aGVsbG9="), Err(HorcruxError::Base64(_))));
    assert!(matches!(decode("a*=="), Err(HorcruxError::Base64(_))));
    assert!(matches!(decode("é"), Err(HorcruxError::Base64(_))));
}

#[test]
fn cuts_into_equal_runs_with_copies() {
    let shards = str_to_shards("hello world", 3, 2, run_length("hello world", 3)).unwrap();
    assert_eq!(shards.len(), 6);
    let expected = [
        (1, "aGVsbA==", 1),
        (1, "aGVsbA==", 2),
        (2, "byB3bw==", 1),
        (2, "byB3bw==", 2),
        (3, "cmxk", 1),
        (3, "cmxk", 2),
    ];
    for (s, (id, data, replica)) in shards.iter().zip(expected.iter()) {
        assert_eq!(s.id, *id);
        assert_eq!(s.data, *data);
        assert_eq!(s.replica_number, *replica);
        assert_eq!(s.total_shards, 3);
    }
}

#[test]
fn cuts_runs_of_the_length_given() {
    let shards = str_to_shards("abcdefghij", 3, 1, 4).unwrap();
    let data: Vec<&str> = shards.iter().map(|s| s.data.as_str()).collect();
    assert_eq!(data, vec!["YWJjZA==", "ZWZnaA==", "aWo="]);
    assert!(shards.iter().all(|s| s.total_shards == 3));
    let whole = str_to_shards("abc", 1, 1, usize::MAX).unwrap();
    assert_eq!(whole.len(), 1);
    assert_eq!(whole[0].data, "YWJj");
}

#[test]
fn rounds_the_run_length_up() {
    // 10 bytes for 4 shards: runs of 3, so only 4 runs of 3, 3, 3, 1 bytes.
    let shards = str_to_shards("abcdefghij", 4, 1, run_length("abcdefghij", 4)).unwrap();
    let data: Vec<&str> = shards.iter().map(|s| s.data.as_str()).collect();
    assert_eq!(data, vec!["YWJj", "ZGVm", "Z2hp", "ag=="]);
    // 9 bytes for 4 shards: runs of 3, so only 3 runs.
    let shards = str_to_shards("abcdefghi", 4, 1, run_length("abcdefghi", 4)).unwrap();
    assert_eq!(shards.len(), 3);
    assert_eq!(shards[2].id, 3);
    assert_eq!(shards[2].total_shards, 4);
}

#[test]
fn refuses_more_shards_than_bytes() {
    assert!(matches!(str_to_shards("ab", 3, 1, run_length("ab", 3)), Err(HorcruxError::TooManyShards)));
    assert!(matches!(str_to_shards("", 1, 1, run_length("", 1)), Err(HorcruxError::TooManyShards)));
}

#[test]
fn zero_shards_keeps_one_run() {
    let shards = str_to_shards("abc", 0, 1, run_length("abc", 0)).unwrap();
    assert_eq!(shards.len(), 1);
    assert_eq!(shards[0].data, "YWJj");
    assert_eq!(shards[0].id, 1);
    assert_eq!(shards[0].total_shards, 0);
}

#[test]
fn zero_replicas_gives_no_shards() {
    assert_eq!(str_to_shards("abc", 1, 0, run_length("abc", 1)).unwrap().len(), 0);
}

#[test]
fn shards_round_trip() {
    let text = "The quick brown fox jumps over the lazy dog";
    for total in 0..6 {
        for reps in 1..4 {
            let shards = str_to_shards(text, total, reps, run_length(text, total)).unwrap();
            assert_eq!(shards_to_str(shards).unwrap(), text);
        }
    }
}

#[test]
fn reassembles_from_a_shuffled_heap_in_order_of_discovery() {
    // Shard 2 seen before shard 1 is passed over; only the run 1, 2, 3 found in order is kept.
    let heap = vec![
        shard(2, "Yg==", 1, 3),
        shard(1, "YQ==", 1, 3),
        shard(1, "YQ==", 2, 3),
        shard(3, "Yw==", 1, 3),
        shard(2, "Yg==", 2, 3),
        shard(3, "Yw==", 2, 3),
    ];
    assert_eq!(shards_to_str(heap).unwrap(), "abc");
}

#[test]
fn no_first_shard_gives_empty_text() {
    let heap = vec![shard(2, "Yg==", 1, 2)];
    assert_eq!(shards_to_str(heap).unwrap(), "");
}

#[test]
fn no_shards_is_refused() {
    assert!(matches!(shards_to_str(vec![]), Err(HorcruxError::NoShards)));
}

#[test]
fn bad_shard_data_is_refused() {
    assert!(matches!(shards_to_str(vec![shard(1, "not base64", 1, 1)]), Err(HorcruxError::Base64(_))));
    // 0xff is not UTF-8.
    assert!(matches!(shards_to_str(vec![shard(1, "/w==", 1, 1)]), Err(HorcruxError::Utf8(_))));
    // A bad shard that is not kept does no harm.
    let heap = vec![shard(2, "???", 1, 1), shard(1, "YQ==", 1, 1)];
    assert_eq!(shards_to_str(heap).unwrap(), "a");
}

#[test]
fn a_run_that_splits_a_character_is_not_text() {
    // "é" is two bytes; one byte per shard cuts it in two.
    let shards = str_to_shards("héllo", 6, 1, run_length("héllo", 6)).unwrap();
    assert_eq!(shards.len(), 6);
    assert!(matches!(shards_to_str(shards), Err(HorcruxError::Utf8(_))));
}

#[test]
fn base64_round_trip() {
    for len in 0..12usize {
        let bytes: Vec<u8> = (0..len).map(|i| (i * 97 + 251) as u8).collect();
        assert_eq!(decode(&encode(&bytes)).unwrap(), bytes);
    }
}

#[test]
fn runs_put_together_give_the_input() {
    let text = "0123456789abcdefghijklmnopq";
    for total in 1..=text.len() {
        let shards = str_to_shards(text, total, 1, run_length(text, total)).unwrap();
        let mut joined = Vec::new();
        for s in &shards {
            let run = decode(&s.data).unwrap();
            assert!(!run.is_empty());
            joined.extend(run);
        }
        assert_eq!(joined, text.as_bytes().to_vec());
        assert!(shards.len() <= total);
    }
}

#[test]
fn any_one_copy_of_each_shard_is_enough() {
    let text = "redundant shards survive losses";
    let shards = str_to_shards(text, 4, 3, run_length(text, 4)).unwrap();
    // Keep one copy of each number, a different copy each time, in order.
    let kept: Vec<Shard> = shards
        .iter()
        .filter(|s| s.replica_number == (s.id % 3) + 1)
        .cloned()
        .collect();
    assert_eq!(kept.len(), 4);
    assert_eq!(shards_to_str(kept).unwrap(), text);
    // Losing every copy of one number loses the text after it.
    let partial: Vec<Shard> = shards.iter().filter(|s| s.id != 3).cloned().collect();
    assert_ne!(shards_to_str(partial).unwrap(), text);
}
