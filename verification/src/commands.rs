//! What each mode of the command line decides from the argument table.

use vstd::prelude::*;
use vstd::string::StringExecFns;
use crate::cli::ArgMap;

verus! {

/// The value of a run of decimal digits.
pub open spec fn digits_value(d: Seq<char>) -> nat
    decreases d.len(),
{
    if d.len() == 0 {
        0
    } else {
        digits_value(d.drop_last()) * 10 + (d.last() as nat - '0' as nat) as nat
    }
}

/// Every character is a decimal digit.
pub open spec fn all_digits(d: Seq<char>) -> bool {
    forall|i: int| 0 <= i < d.len() ==> '0' <= #[trigger] d[i] <= '9'
}

/// The number that `s` denotes as an unsigned machine integer: an optional `+` followed by
/// at least one decimal digit, of value at most `usize::MAX`; `None` otherwise.
pub open spec fn usize_text(s: Seq<char>) -> Option<nat> {
    let d = if s.len() > 0 && s[0] == '+' {
        s.skip(1)
    } else {
        s
    };
    if d.len() > 0 && all_digits(d) && digits_value(d) <= usize::MAX {
        Some(digits_value(d))
    } else {
        None
    }
}

/// Reads an unsigned machine integer, through `str::parse::<usize>`.
///
/// Trusted: std documents that the text must be an optional `+` followed by decimal digits
/// only, and that a value out of range is an error.
#[verifier::external_body]
fn parse_usize(s: &str) -> (r: Option<usize>)
    ensures
        match r {
            Some(n) => usize_text(s@) == Some(n as nat),
            None => usize_text(s@) is None,
        },
{
    s.parse::<usize>().ok()
}

/// The modes of the command line.
#[derive(Clone, Copy, Debug, PartialEq, Eq, Structural)]
pub enum Mode {
    Get,
    Send,
    Pin,
    Help,
}

/// The mode that the table asks for: the first value of `mode`, help when it is missing or
/// names no mode.
pub open spec fn mode_of(t: Map<Seq<char>, Seq<Seq<char>>>) -> Mode {
    if !t.contains_key("mode"@) {
        Mode::Help
    } else if t["mode"@][0] == "get"@ {
        Mode::Get
    } else if t["mode"@][0] == "send"@ {
        Mode::Send
    } else if t["mode"@][0] == "pin"@ {
        Mode::Pin
    } else {
        Mode::Help
    }
}

/// The first of `values` is `text`.
fn first_value_is(values: &Vec<String>, text: &str) -> (b: bool)
    requires
        values.len() >= 1,
    ensures
        b == (values[0]@ == text@),
{
    values[0] == String::from_str(text)
}

/// Picks the mode that the table asks for.
pub fn select_mode(args: &ArgMap) -> (mode: Mode)
    requires
        args@.contains_key("mode"@) ==> args@["mode"@].len() >= 1,
    ensures
        mode == mode_of(args@),
{
    match args.get("mode") {
        None => Mode::Help,
        Some(values) => {
            if first_value_is(values, "get") {
                Mode::Get
            } else if first_value_is(values, "send") {
                Mode::Send
            } else if first_value_is(values, "pin") {
                Mode::Pin
            } else {
                Mode::Help
            }
        },
    }
}


/// What the send mode does.
pub enum SendPlan {
    /// No file was named: nothing to do.
    NoFile,
    /// No input was given: nothing to do.
    NoInput,
    /// No key was given: nothing to do.
    NoKey,
    /// The file named is `NONE`: nothing to do.
    NoneFile,
    /// Shard, seal and send `input` under `key`.
    Run { input: String, key: String, reps: usize, shards: usize, filename: String },
}

/// What the send mode decides, as a mathematical value.
pub enum SendDecision {
    NoFile,
    NoInput,
    NoKey,
    NoneFile,
    Run { input: Seq<char>, key: Seq<char>, reps: nat, shards: nat, filename: Seq<char> },
    /// A value is missing or is not a number where one is read.
    Unreadable,
}

impl SendPlan {
    pub open spec fn view(&self) -> SendDecision {
        match self {
            SendPlan::NoFile => SendDecision::NoFile,
            SendPlan::NoInput => SendDecision::NoInput,
            SendPlan::NoKey => SendDecision::NoKey,
            SendPlan::NoneFile => SendDecision::NoneFile,
            SendPlan::Run { input, key, reps, shards, filename } => SendDecision::Run {
                input: input@,
                key: key@,
                reps: *reps as nat,
                shards: *shards as nat,
                filename: filename@,
            },
        }
    }
}

/// The count given under `name`, one when there is none; `None` when it is not a number.
pub open spec fn count_or_one(t: Map<Seq<char>, Seq<Seq<char>>>, name: Seq<char>) -> Option<nat> {
    if !t.contains_key(name) {
        Some(1)
    } else if t[name].len() == 0 {
        None
    } else {
        usize_text(t[name][0])
    }
}

/// The decision of the send mode: the file, input and key must be named, in that order;
/// replicas and shards default to one; a file named `NONE` stops it.
pub open spec fn send_decision(t: Map<Seq<char>, Seq<Seq<char>>>) -> SendDecision {
    if !t.contains_key("filename"@) {
        SendDecision::NoFile
    } else if !t.contains_key("input"@) {
        SendDecision::NoInput
    } else if !t.contains_key("key"@) {
        SendDecision::NoKey
    } else if t["input"@].len() == 0 || t["key"@].len() == 0 {
        SendDecision::Unreadable
    } else {
        match count_or_one(t, "reps"@) {
            None => SendDecision::Unreadable,
            Some(reps) => if t["filename"@].len() == 0 {
                SendDecision::Unreadable
            } else if t["filename"@][0] == "NONE"@ {
                SendDecision::NoneFile
            } else {
                match count_or_one(t, "shards"@) {
                    None => SendDecision::Unreadable,
                    Some(shards) => SendDecision::Run {
                        input: t["input"@][0],
                        key: t["key"@][0],
                        reps,
                        shards,
                        filename: t["filename"@][0],
                    },
                }
            },
        }
    }
}

/// The count given under `name`, one when there is none; `None` when it is not a number.
fn read_count(args: &ArgMap, name: &str) -> (r: Option<usize>)
    ensures
        match r {
            Some(n) => count_or_one(args@, name@) == Some(n as nat),
            None => count_or_one(args@, name@) is None,
        },
{
    match args.get(name) {
        None => Some(1),
        Some(values) => {
            if values.len() == 0 {
                None
            } else {
                parse_usize(values[0].as_str())
            }
        },
    }
}

/// A send run reads its values straight from the table: the first input, key and file
/// name, and each count from its first value, one where the count is not given.
pub open spec fn run_reads_table(
    t: Map<Seq<char>, Seq<Seq<char>>>,
    input: Seq<char>,
    key: Seq<char>,
    reps: nat,
    shards: nat,
    filename: Seq<char>,
) -> bool {
    &&& t.contains_key("input"@) && input == t["input"@][0]
    &&& t.contains_key("key"@) && key == t["key"@][0]
    &&& t.contains_key("filename"@) && filename == t["filename"@][0] && filename != "NONE"@
    &&& (t.contains_key("reps"@) ==> usize_text(t["reps"@][0]) == Some(reps))
    &&& (!t.contains_key("reps"@) ==> reps == 1)
    &&& (t.contains_key("shards"@) ==> usize_text(t["shards"@][0]) == Some(shards))
    &&& (!t.contains_key("shards"@) ==> shards == 1)
}

/// When the send mode runs, every value it runs with is read from the table, and a count
/// that is not given is one, whatever the other count is.
pub proof fn lemma_send_run_reads_table(t: Map<Seq<char>, Seq<Seq<char>>>)
    ensures
        send_decision(t) matches SendDecision::Run { input, key, reps, shards, filename }
            ==> run_reads_table(t, input, key, reps, shards, filename),
{
}

/// Decides what the send mode does; `None` where a value that is read is missing or is not
/// a number.
pub fn try_plan_send(args: &ArgMap) -> (r: Option<SendPlan>)
    ensures
        match r {
            None => send_decision(args@) is Unreadable,
            Some(plan) => plan@ == send_decision(args@),
        },
        r matches Some(SendPlan::Run { input, key, reps, shards, filename }) ==> run_reads_table(
            args@,
            input@,
            key@,
            reps as nat,
            shards as nat,
            filename@,
        ),
{
    proof {
        lemma_send_run_reads_table(args@);
    }
    if args.get("filename").is_none() {
        return Some(SendPlan::NoFile);
    }
    if args.get("input").is_none() {
        return Some(SendPlan::NoInput);
    }
    if args.get("key").is_none() {
        return Some(SendPlan::NoKey);
    }
    let inputs = args.get("input").unwrap();
    let keys = args.get("key").unwrap();
    if inputs.len() == 0 || keys.len() == 0 {
        return None;
    }
    let input = inputs[0].clone();
    let key = keys[0].clone();
    let reps = match read_count(args, "reps") {
        Some(n) => n,
        None => return None,
    };
    let files = args.get("filename").unwrap();
    if files.len() == 0 {
        return None;
    }
    let filename = files[0].clone();
    if filename == String::from_str("NONE") {
        return Some(SendPlan::NoneFile);
    }
    let shards = match read_count(args, "shards") {
        Some(n) => n,
        None => return None,
    };
    Some(SendPlan::Run { input, key, reps, shards, filename })
}

/// Decides what the send mode does.
pub fn plan_send(args: &ArgMap) -> (plan: SendPlan)
    requires
        !(send_decision(args@) is Unreadable),
    ensures
        plan@ == send_decision(args@),
        plan matches SendPlan::Run { input, key, reps, shards, filename } ==> run_reads_table(
            args@,
            input@,
            key@,
            reps as nat,
            shards as nat,
            filename@,
        ),
{
    match try_plan_send(args) {
        Some(plan) => plan,
        None => {
            proof {
                assert(false);
            }
            SendPlan::NoFile
        },
    }
}

/// What the get mode does.
pub enum GetPlan {
    /// No key was given: nothing to do.
    NoKey,
    /// No hash list was given: nothing to do.
    NoHashes,
    /// Fetch the shards that `hashes` locates and open them under `key`.
    Run { hashes: String, key: String },
}

/// The decision of the get mode: the key and the hash list (under `filename`) must be
/// given, in that order.
pub open spec fn get_decision(t: Map<Seq<char>, Seq<Seq<char>>>) -> Option<(Seq<char>, Seq<char>)> {
    if t.contains_key("key"@) && t.contains_key("filename"@) {
        Some((t["filename"@][0], t["key"@][0]))
    } else {
        None
    }
}

/// The get mode runs exactly when both the key and the hash list are given, with the first
/// value of each.
pub proof fn lemma_get_reads_first_values(t: Map<Seq<char>, Seq<Seq<char>>>)
    ensures
        get_decision(t) is Some <==> t.contains_key("key"@) && t.contains_key("filename"@),
        get_decision(t) matches Some((hashes, key)) ==> hashes == t["filename"@][0] && key
            == t["key"@][0],
{
}

/// Decides what the get mode does.
pub fn plan_get(args: &ArgMap) -> (plan: GetPlan)
    requires
        args@.contains_key("key"@) && args@.contains_key("filename"@) ==> args@["key"@].len() >= 1
            && args@["filename"@].len() >= 1,
    ensures
        !args@.contains_key("key"@) <==> plan is NoKey,
        args@.contains_key("key"@) && !args@.contains_key("filename"@) <==> plan is NoHashes,
        plan matches GetPlan::Run { hashes, key } ==> get_decision(args@) == Some((hashes@, key@)),
        plan matches GetPlan::Run { hashes, key } ==> args@.contains_key("filename"@) && hashes@
            == args@["filename"@][0] && args@.contains_key("key"@) && key@ == args@["key"@][0],
{
    let keys = match args.get("key") {
        None => return GetPlan::NoKey,
        Some(k) => k,
    };
    let files = match args.get("filename") {
        None => return GetPlan::NoHashes,
        Some(f) => f,
    };
    GetPlan::Run { hashes: files[0].clone(), key: keys[0].clone() }
}

/// What the pin mode does.
pub enum PinPlan {
    /// No file was named: nothing to do.
    NoFile,
    /// The file named is `NONE`: nothing to do.
    NoneFile,
    /// Pin the shards whose hashes the image `filename` carries.
    Run { filename: String },
}

/// Decides what the pin mode does.
pub fn plan_pin(args: &ArgMap) -> (plan: PinPlan)
    requires
        args@.contains_key("filename"@) ==> args@["filename"@].len() >= 1,
    ensures
        !args@.contains_key("filename"@) <==> plan is NoFile,
        plan is NoneFile <==> args@.contains_key("filename"@) && args@["filename"@][0] == "NONE"@,
        plan matches PinPlan::Run { filename } ==> args@.contains_key("filename"@) && filename@ == args@["filename"@][0],
{
    let files = match args.get("filename") {
        None => return PinPlan::NoFile,
        Some(f) => f,
    };
    let filename = files[0].clone();
    if filename == String::from_str("NONE") {
        return PinPlan::NoneFile;
    }
    PinPlan::Run { filename }
}

} // verus!
