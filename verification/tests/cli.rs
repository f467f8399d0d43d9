use horcrux::cli::{parse_args, try_parse_args, ArgMap};
use horcrux::commands::{plan_get, plan_pin, plan_send, select_mode, try_plan_send, GetPlan, Mode, PinPlan, SendPlan};

fn args(list: &[&str]) -> Vec<String> {
    list.iter().map(|s| s.to_string()).collect()
}

#[test]
fn reads_named_values() {
    let table = parse_args(&args(&["prog", "--mode==send", "--input==hello", "--key==a,b,c"]));
    assert_eq!(table.len(), 3);
    assert_eq!(table.get("mode").unwrap(), &vec!["send".to_string()]);
    assert_eq!(table.get("key").unwrap(), &vec!["a".to_string(), "b".to_string(), "c".to_string()]);
    assert!(table.get("prog").is_none());
}

#[test]
fn later_flags_replace_earlier_ones() {
    let table = parse_args(&args(&["--mode==send", "--mode==get"]));
    assert_eq!(table.len(), 1);
    assert_eq!(select_mode(&table), Mode::Get);
}

#[test]
fn dashes_are_taken_out_and_only_the_first_value_field_counts() {
    let table = parse_args(&args(&["--a--b==x==y", "--c==--d", "--e==", "--f==1,,2"]));
    assert_eq!(table.get("ab").unwrap(), &vec!["x".to_string()]);
    assert_eq!(table.get("c").unwrap(), &vec!["d".to_string()]);
    assert_eq!(table.get("e").unwrap(), &vec!["".to_string()]);
    assert_eq!(table.get("f").unwrap(), &vec!["1".to_string(), "".to_string(), "2".to_string()]);
}

#[test]
fn a_flag_without_value_cannot_be_read() {
    assert!(try_parse_args(&args(&["--mode"])).is_none());
    // "-=-=" loses nothing; "--=" keeps only one '='.
    assert!(try_parse_args(&args(&["--x-==-=y"])).is_some());
    assert!(try_parse_args(&args(&["--x=--=y"])).is_some());
    assert!(try_parse_args(&args(&["prog", "plain"])).unwrap().len() == 0);
}

#[test]
fn picks_the_mode() {
    assert_eq!(select_mode(&parse_args(&args(&["--mode==get"]))), Mode::Get);
    assert_eq!(select_mode(&parse_args(&args(&["--mode==send"]))), Mode::Send);
    assert_eq!(select_mode(&parse_args(&args(&["--mode==pin"]))), Mode::Pin);
    assert_eq!(select_mode(&parse_args(&args(&["--mode==other"]))), Mode::Help);
    assert_eq!(select_mode(&parse_args(&args(&[]))), Mode::Help);
    assert_eq!(select_mode(&parse_args(&args(&["--mode==get,send"]))), Mode::Get);
}

#[test]
fn send_needs_file_input_and_key() {
    assert!(matches!(plan_send(&parse_args(&args(&["--input==x", "--key==k"]))), SendPlan::NoFile));
    assert!(matches!(plan_send(&parse_args(&args(&["--filename==f", "--key==k"]))), SendPlan::NoInput));
    assert!(matches!(plan_send(&parse_args(&args(&["--filename==f", "--input==x"]))), SendPlan::NoKey));
    assert!(matches!(
        plan_send(&parse_args(&args(&["--filename==NONE", "--input==x", "--key==k"]))),
        SendPlan::NoneFile
    ));
}

#[test]
fn send_defaults_counts_to_one() {
    match plan_send(&parse_args(&args(&["--filename==img.png", "--input==secret", "--key==k"]))) {
        SendPlan::Run { input, key, reps, shards, filename } => {
            assert_eq!(input, "secret");
            assert_eq!(key, "k");
            assert_eq!(reps, 1);
            assert_eq!(shards, 1);
            assert_eq!(filename, "img.png");
        },
        _ => panic!("expected a run"),
    }
    match plan_send(&parse_args(&args(&["--filename==f", "--input==s", "--key==k", "--reps==+3", "--shards==12"]))) {
        SendPlan::Run { reps, shards, .. } => {
            assert_eq!(reps, 3);
            assert_eq!(shards, 12);
        },
        _ => panic!("expected a run"),
    }
}

#[test]
fn send_cannot_read_a_bad_count() {
    assert!(try_plan_send(&parse_args(&args(&["--filename==f", "--input==s", "--key==k", "--reps==x"]))).is_none());
    assert!(try_plan_send(&parse_args(&args(&["--filename==f", "--input==s", "--key==k", "--shards==-1"]))).is_none());
    // The shard count is not read when the file is NONE.
    assert!(matches!(
        try_plan_send(&parse_args(&args(&["--filename==NONE", "--input==s", "--key==k", "--shards==x"]))),
        Some(SendPlan::NoneFile)
    ));
    // The replica count is read first.
    assert!(try_plan_send(&parse_args(&args(&["--filename==NONE", "--input==s", "--key==k", "--reps==x"]))).is_none());
}

#[test]
fn get_needs_key_then_hashes() {
    assert!(matches!(plan_get(&parse_args(&args(&["--filename==h"]))), GetPlan::NoKey));
    assert!(matches!(plan_get(&parse_args(&args(&["--key==k"]))), GetPlan::NoHashes));
    match plan_get(&parse_args(&args(&["--key==k", "--filename==abc"]))) {
        GetPlan::Run { hashes, key } => {
            assert_eq!(hashes, "abc");
            assert_eq!(key, "k");
        },
        _ => panic!("expected a run"),
    }
}

#[test]
fn pin_needs_a_file() {
    assert!(matches!(plan_pin(&parse_args(&args(&[]))), PinPlan::NoFile));
    assert!(matches!(plan_pin(&parse_args(&args(&["--filename==NONE"]))), PinPlan::NoneFile));
    assert!(matches!(plan_pin(&parse_args(&args(&["--filename==a.png"]))), PinPlan::Run { .. }));
}

#[test]
fn table_insert_then_get() {
    let mut table = ArgMap::new();
    assert_eq!(table.len(), 0);
    table.insert("k".to_string(), vec!["1".to_string()]);
    table.insert("j".to_string(), vec![]);
    table.insert("k".to_string(), vec!["2".to_string()]);
    assert_eq!(table.len(), 2);
    assert_eq!(table.get("k").unwrap(), &vec!["2".to_string()]);
    assert_eq!(table.get("j").unwrap().len(), 0);
}
