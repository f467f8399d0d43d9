//! The decisions of the command line: reading `--name==v1,v2` arguments into a table, and
//! what each mode does with it.

use vstd::prelude::*;
use vstd::string::StringExecFns;
use crate::hashes::{lemma_split_on_len, split_commas, split_on, texts};
use crate::text::{chars_of, push_char};

verus! {

/// Named argument values: each name with the list of its values, a name at most once.
pub struct ArgMap {
    entries: Vec<(String, Vec<String>)>,
}

impl ArgMap {
    #[verifier::type_invariant]
    spec fn names_distinct(self) -> bool {
        forall|i: int, j: int|
            0 <= i < j < self.entries.len() ==> (#[trigger] self.entries[i]).0@ != (#[trigger] self.entries[j]).0@
    }

    /// The table as a map from names to the texts of their values.
    pub closed spec fn view(&self) -> Map<Seq<char>, Seq<Seq<char>>> {
        Map::new(
            |k: Seq<char>| exists|i: int| 0 <= i < self.entries.len() && (#[trigger] self.entries[i]).0@ == k,
            |k: Seq<char>|
                texts(
                    self.entries[choose|i: int| 0 <= i < self.entries.len() && (#[trigger] self.entries[i]).0@ == k].1@,
                ),
        )
    }

    /// An empty table.
    pub fn new() -> (m: ArgMap)
        ensures
            m@ == Map::<Seq<char>, Seq<Seq<char>>>::empty(),
    {
        let m = ArgMap { entries: Vec::new() };
        assert(m@ =~= Map::<Seq<char>, Seq<Seq<char>>>::empty());
        m
    }

    /// The position of `name` in the table, if it is there.
    fn position(&self, name: &String) -> (r: Option<usize>)
        ensures
            r matches Some(i) ==> i < self.entries.len() && self.entries[i as int].0@ == name@,
            r is None ==> forall|i: int| 0 <= i < self.entries.len() ==> (#[trigger] self.entries[i]).0@ != name@,
    {
        let mut i: usize = 0;
        while i < self.entries.len()
            invariant
                i <= self.entries.len(),
                forall|j: int| 0 <= j < i ==> (#[trigger] self.entries[j]).0@ != name@,
            decreases self.entries.len() - i,
        {
            if self.entries[i].0 == *name {
                return Some(i);
            }
            i = i + 1;
        }
        None
    }

    /// Sets the values of `name`, replacing any it had.
    pub fn insert(&mut self, name: String, values: Vec<String>)
        ensures
            final(self)@ == old(self)@.insert(name@, texts(values@)),
    {
        proof {
            use_type_invariant(&*self);
        }
        let ghost old_entries = self.entries@;
        let ghost old_view = self@;
        let ghost n = name@;
        let ghost vs = texts(values@);
        match self.position(&name) {
            Some(i) => {
                let mut entries = Vec::new();
                std::mem::swap(&mut entries, &mut self.entries);
                entries.set(i, (name, values));
                self.entries = entries;
                proof {
                    assert forall|k: Seq<char>| #[trigger] self@.contains_key(k) == old_view.insert(n, vs).contains_key(k) by {
                        if old_view.contains_key(k) && k != n {
                            let j = choose|j: int| 0 <= j < old_entries.len() && (#[trigger] old_entries[j]).0@ == k;
                            assert(self.entries[j].0@ == k);
                        }
                        if k == n {
                            assert(self.entries[i as int].0@ == k);
                        }
                        if self@.contains_key(k) {
                            let j = choose|j: int| 0 <= j < self.entries.len() && (#[trigger] self.entries[j]).0@ == k;
                            if j != i {
                                assert(old_entries[j].0@ == k);
                            }
                        }
                    }
                    assert forall|k: Seq<char>| #[trigger] self@.contains_key(k) implies self@[k] == old_view.insert(n, vs)[k] by {
                        let j = choose|j: int| 0 <= j < self.entries.len() && (#[trigger] self.entries[j]).0@ == k;
                        if k != n {
                            assert(old_entries[j].0@ == k);
                            let j2 = choose|j: int| 0 <= j < old_entries.len() && (#[trigger] old_entries[j]).0@ == k;
                            assert(j2 == j);
                        } else {
                            assert(j == i);
                        }
                    }
                    assert(self@ =~= old_view.insert(n, vs));
                }
            },
            None => {
                let mut entries = Vec::new();
                std::mem::swap(&mut entries, &mut self.entries);
                entries.push((name, values));
                self.entries = entries;
                proof {
                    let last = old_entries.len() as int;
                    assert forall|k: Seq<char>| #[trigger] self@.contains_key(k) == old_view.insert(n, vs).contains_key(k) by {
                        if old_view.contains_key(k) {
                            let j = choose|j: int| 0 <= j < old_entries.len() && (#[trigger] old_entries[j]).0@ == k;
                            assert(self.entries[j].0@ == k);
                        }
                        if k == n {
                            assert(self.entries[last].0@ == k);
                        }
                        if self@.contains_key(k) {
                            let j = choose|j: int| 0 <= j < self.entries.len() && (#[trigger] self.entries[j]).0@ == k;
                            if j != last {
                                assert(old_entries[j].0@ == k);
                            }
                        }
                    }
                    assert forall|k: Seq<char>| #[trigger] self@.contains_key(k) implies self@[k] == old_view.insert(n, vs)[k] by {
                        let j = choose|j: int| 0 <= j < self.entries.len() && (#[trigger] self.entries[j]).0@ == k;
                        if k != n {
                            assert(j != last);
                            assert(old_entries[j].0@ == k);
                            let j2 = choose|j: int| 0 <= j < old_entries.len() && (#[trigger] old_entries[j]).0@ == k;
                            assert(j2 == j);
                        } else {
                            if j != last {
                                assert(old_entries[j].0@ == n);
                            }
                            assert(j == last);
                        }
                    }
                    assert(self@ =~= old_view.insert(n, vs));
                }
            },
        }
    }

    /// The values of `name`, if it has any entry.
    pub fn get(&self, name: &str) -> (r: Option<&Vec<String>>)
        ensures
            r is Some <==> self@.contains_key(name@),
            r matches Some(v) ==> texts(v@) == self@[name@],
    {
        proof {
            use_type_invariant(&*self);
        }
        let key = String::from_str(name);
        match self.position(&key) {
            Some(i) => {
                proof {
                    let j = choose|j: int| 0 <= j < self.entries.len() && (#[trigger] self.entries[j]).0@ == name@;
                    assert(j == i as int);
                }
                Some(&self.entries[i].1)
            },
            None => None,
        }
    }

    /// The number of names in the table.
    pub fn len(&self) -> (n: usize)
        ensures
            n == self@.len(),
    {
        proof {
            use_type_invariant(&*self);
            lemma_view_len(self);
        }
        self.entries.len()
    }
}

proof fn lemma_view_len(m: &ArgMap)
    requires
        m.names_distinct(),
    ensures
        m@.len() == m.entries.len(),
{
    let names = m.entries@.map_values(|e: (String, Vec<String>)| e.0@);
    assert(m@.dom() =~= names.to_set()) by {
        assert forall|k: Seq<char>| m@.dom().contains(k) <==> names.to_set().contains(k) by {
            if names.contains(k) {
                let j = choose|j: int| 0 <= j < names.len() && names[j] == k;
                assert(m.entries[j].0@ == k);
            }
            if m@.dom().contains(k) {
                let j = choose|j: int| 0 <= j < m.entries.len() && (#[trigger] m.entries[j]).0@ == k;
                assert(names[j] == k);
            }
        }
    }
    assert(names.no_duplicates()) by {
        assert forall|i: int, j: int| 0 <= i < names.len() && 0 <= j < names.len() && i != j implies names[i] != names[j] by {
            if i < j {
                assert(m.entries[i].0@ != m.entries[j].0@);
            } else {
                assert(m.entries[j].0@ != m.entries[i].0@);
            }
        }
    }
    names.unique_seq_to_set();
}


/// The text of `chars[lo..hi]`.
fn string_of(chars: &Vec<char>, lo: usize, hi: usize) -> (s: String)
    requires
        lo <= hi <= chars.len(),
    ensures
        s@ == chars@.subrange(lo as int, hi as int),
{
    let mut s = String::new();
    let mut i = lo;
    while i < hi
        invariant
            lo <= i <= hi <= chars.len(),
            s@ == chars@.subrange(lo as int, i as int),
        decreases hi - i,
    {
        push_char(&mut s, chars[i]);
        assert(chars@.subrange(lo as int, i + 1) =~= chars@.subrange(lo as int, i as int).push(chars@[i as int]));
        i = i + 1;
    }
    s
}

/// `arg` names a value: it starts with two dashes.
pub open spec fn is_flag(arg: Seq<char>) -> bool {
    arg.len() >= 2 && arg[0] == '-' && arg[1] == '-'
}

/// `s` with every occurrence of two dashes taken out, matching from the left.
pub open spec fn strip_dashes(s: Seq<char>) -> Seq<char>
    decreases s.len(),
{
    if s.len() == 0 {
        seq![]
    } else if s.len() >= 2 && s[0] == '-' && s[1] == '-' {
        strip_dashes(s.skip(2))
    } else {
        seq![s[0]] + strip_dashes(s.skip(1))
    }
}

/// Two equals signs start at position `i` of `s`.
pub open spec fn eq_eq_at(s: Seq<char>, i: int) -> bool {
    0 <= i && i + 1 < s.len() && s[i] == '=' && s[i + 1] == '='
}

/// Position `i` is where the first two equals signs of `s` start.
pub open spec fn first_eq_eq(s: Seq<char>, i: int) -> bool {
    eq_eq_at(s, i) && forall|j: int| 0 <= j < i ==> !eq_eq_at(s, j)
}

/// `s` holds two equals signs in a row.
pub open spec fn has_eq_eq(s: Seq<char>) -> bool {
    exists|i: int| eq_eq_at(s, i)
}

/// Where the first two equals signs of `s` start.
pub open spec fn eq_eq_index(s: Seq<char>) -> int {
    choose|i: int| first_eq_eq(s, i)
}

/// The text before the first `==` of a flag, with its dashes taken out: the name.
pub open spec fn flag_name(arg: Seq<char>) -> Seq<char> {
    let s = strip_dashes(arg);
    s.take(eq_eq_index(s))
}

/// The text between the first and the second `==` of a flag (or to its end), with its
/// dashes taken out: the values, separated by commas.
pub open spec fn flag_value_text(arg: Seq<char>) -> Seq<char> {
    let s = strip_dashes(arg);
    let rest = s.skip(eq_eq_index(s) + 2);
    if has_eq_eq(rest) {
        rest.take(eq_eq_index(rest))
    } else {
        rest
    }
}

/// A flag can be read: with its dashes taken out, it still holds `==`.
pub open spec fn readable_flag(arg: Seq<char>) -> bool {
    is_flag(arg) ==> has_eq_eq(strip_dashes(arg))
}

/// The table read from the arguments: each flag in turn sets its name to its values, a later
/// flag replacing an earlier one of the same name; other arguments are passed over.
pub open spec fn arg_table(args: Seq<Seq<char>>) -> Map<Seq<char>, Seq<Seq<char>>>
    decreases args.len(),
{
    if args.len() == 0 {
        Map::empty()
    } else if is_flag(args.last()) {
        arg_table(args.drop_last()).insert(
            flag_name(args.last()),
            split_on(flag_value_text(args.last()), ','),
        )
    } else {
        arg_table(args.drop_last())
    }
}

proof fn lemma_first_eq_eq_unique(s: Seq<char>, i: int)
    requires
        first_eq_eq(s, i),
    ensures
        eq_eq_index(s) == i,
{
    let k = eq_eq_index(s);
    assert(first_eq_eq(s, k));
    if k < i {
        assert(!eq_eq_at(s, k));
    }
    if i < k {
        assert(!eq_eq_at(s, i));
    }
}

/// The first `==` in `chars` at or after `from`.
fn find_eq_eq(chars: &Vec<char>, from: usize) -> (r: Option<usize>)
    requires
        from <= chars.len(),
    ensures
        r matches Some(i) ==> from <= i && eq_eq_at(chars@, i as int) && forall|j: int|
            from <= j < i ==> !eq_eq_at(chars@, j),
        r is None ==> forall|j: int| from <= j ==> !eq_eq_at(chars@, j),
{
    let mut i = from;
    while chars.len() - i > 1
        invariant
            from <= i,
            i <= chars.len(),
            forall|j: int| from <= j < i ==> !eq_eq_at(chars@, j),
        decreases chars.len() - i,
    {
        if chars[i] == '=' && chars[i + 1] == '=' {
            return Some(i);
        }
        i = i + 1;
    }
    None
}

/// `s` with every occurrence of two dashes taken out.
fn strip_dashes_exec(chars: &Vec<char>) -> (out: Vec<char>)
    ensures
        out@ == strip_dashes(chars@),
{
    let mut out: Vec<char> = Vec::new();
    let mut i: usize = 0;
    assert(chars@.skip(0) =~= chars@);
    while i < chars.len()
        invariant
            i <= chars.len(),
            strip_dashes(chars@) == out@ + strip_dashes(chars@.skip(i as int)),
        decreases chars.len() - i,
    {
        let ghost rest = chars@.skip(i as int);
        if i + 1 < chars.len() && chars[i] == '-' && chars[i + 1] == '-' {
            assert(rest.skip(2) =~= chars@.skip(i + 2));
            i = i + 2;
        } else {
            let ghost before = out@;
            out.push(chars[i]);
            assert(rest.skip(1) =~= chars@.skip(i + 1));
            assert(out@ + strip_dashes(chars@.skip(i + 1)) =~= before + (seq![rest[0]] + strip_dashes(rest.skip(1))));
            i = i + 1;
        }
    }
    assert(out@ + seq![] =~= out@);
    out
}

/// Reads one flag into its name and its values.
fn read_flag(arg: &str) -> (r: (String, Vec<String>))
    requires
        is_flag(arg@),
        readable_flag(arg@),
    ensures
        r.0@ == flag_name(arg@),
        texts(r.1@) == split_on(flag_value_text(arg@), ','),
{
    let chars = strip_dashes_exec(&chars_of(arg));
    let ghost s = chars@;
    let i = match find_eq_eq(&chars, 0) {
        Some(i) => i,
        None => {
            proof {
                let k = choose|k: int| eq_eq_at(s, k);
                assert(!eq_eq_at(s, k));
            }
            chars.len()
        },
    };
    proof {
        if i < chars.len() {
            lemma_first_eq_eq_unique(s, i as int);
        }
    }
    assert(i < chars.len()) by {
        if i >= chars.len() {
            let k = choose|k: int| eq_eq_at(s, k);
            assert(!eq_eq_at(s, k));
        }
    }
    let name = string_of(&chars, 0, i);
    assert(s.subrange(0, i as int) =~= s.take(i as int));
    let start = i + 2;
    let ghost rest = s.skip(start as int);
    let end = match find_eq_eq(&chars, start) {
        Some(j) => {
            proof {
                assert(first_eq_eq(rest, j - start)) by {
                    assert forall|m: int| 0 <= m < j - start implies !eq_eq_at(rest, m) by {
                        assert(!eq_eq_at(s, m + start));
                    }
                    assert(eq_eq_at(s, j as int));
                }
                lemma_first_eq_eq_unique(rest, j - start);
            }
            j
        },
        None => {
            proof {
                assert(!has_eq_eq(rest)) by {
                    if has_eq_eq(rest) {
                        let m = choose|m: int| eq_eq_at(rest, m);
                        assert(eq_eq_at(s, m + start));
                    }
                }
            }
            chars.len()
        },
    };
    let value_text = string_of(&chars, start, end);
    proof {
        if end < chars.len() {
            assert(s.subrange(start as int, end as int) =~= rest.take(end - start));
        } else {
            assert(s.subrange(start as int, end as int) =~= rest);
        }
    }
    let values = split_commas(value_text.as_str());
    (name, values)
}

/// Every flag among the arguments can be read.
pub open spec fn readable_args(args: Seq<String>) -> bool {
    forall|i: int| 0 <= i < args.len() ==> readable_flag(#[trigger] args[i]@)
}

/// Each name in the table has at least one value.
pub open spec fn every_name_has_values(t: Map<Seq<char>, Seq<Seq<char>>>) -> bool {
    forall|k: Seq<char>| #[trigger] t.contains_key(k) ==> t[k].len() >= 1
}

/// Reads the `--name==v1,v2` arguments into a table.
pub fn parse_args(args: &Vec<String>) -> (table: ArgMap)
    requires
        readable_args(args@),
    ensures
        table@ == arg_table(texts(args@)),
        every_name_has_values(table@),
{
    let mut table = ArgMap::new();
    let mut i: usize = 0;
    while i < args.len()
        invariant
            i <= args.len(),
            readable_args(args@),
            table@ == arg_table(texts(args@).take(i as int)),
            every_name_has_values(table@),
        decreases args.len() - i,
    {
        let ghost t = texts(args@).take(i + 1);
        assert(t.drop_last() =~= texts(args@).take(i as int));
        assert(t.last() == args@[i as int]@);
        let arg = args[i].as_str();
        if starts_with_dashes(arg) {
            assert(readable_flag(args@[i as int]@));
            let (name, values) = read_flag(arg);
            proof {
                lemma_split_on_len(flag_value_text(arg@), ',');
            }
            table.insert(name, values);
        }
        i = i + 1;
    }
    assert(texts(args@).take(args.len() as int) =~= texts(args@));
    table
}

/// Reads the arguments into a table; `None` when a flag holds no `==` once its dashes are
/// taken out, which has no value to read.
pub fn try_parse_args(args: &Vec<String>) -> (r: Option<ArgMap>)
    ensures
        r is None <==> !readable_args(args@),
        r matches Some(table) ==> table@ == arg_table(texts(args@)),
{
    let mut i: usize = 0;
    while i < args.len()
        invariant
            i <= args.len(),
            forall|j: int| 0 <= j < i ==> readable_flag(#[trigger] args@[j]@),
        decreases args.len() - i,
    {
        let arg = args[i].as_str();
        if starts_with_dashes(arg) {
            let chars = strip_dashes_exec(&chars_of(arg));
            if find_eq_eq(&chars, 0).is_none() {
                proof {
                    assert(!readable_flag(args@[i as int]@)) by {
                        if has_eq_eq(chars@) {
                            let k = choose|k: int| eq_eq_at(chars@, k);
                            assert(!eq_eq_at(chars@, k));
                        }
                    }
                }
                return None;
            }
        }
        i = i + 1;
    }
    Some(parse_args(args))
}

/// `arg` starts with two dashes.
fn starts_with_dashes(arg: &str) -> (b: bool)
    ensures
        b == is_flag(arg@),
{
    let chars = chars_of(arg);
    chars.len() >= 2 && chars[0] == '-' && chars[1] == '-'
}


/// `s` holds no two dashes in a row.
pub open spec fn no_double_dash(s: Seq<char>) -> bool {
    forall|i: int| 0 <= i && i + 1 < s.len() ==> !(#[trigger] s[i] == '-' && s[i + 1] == '-')
}

proof fn lemma_strip_keeps(s: Seq<char>)
    requires
        no_double_dash(s),
    ensures
        strip_dashes(s) == s,
    decreases s.len(),
{
    if s.len() > 0 {
        let rest = s.skip(1);
        assert(no_double_dash(rest)) by {
            assert forall|i: int| 0 <= i && i + 1 < rest.len() implies !(#[trigger] rest[i] == '-' && rest[i + 1]
                == '-') by {
                assert(rest[i] == s[i + 1] && rest[i + 1] == s[i + 2]);
            }
        }
        lemma_strip_keeps(rest);
        if s.len() >= 2 {
            assert(!(s[0] == '-' && s[1] == '-'));
        }
        assert(seq![s[0]] + rest =~= s);
    }
}

proof fn lemma_strip_prefix(p: Seq<char>, x: Seq<char>)
    requires
        forall|i: int| 0 <= i < p.len() ==> #[trigger] p[i] != '-',
    ensures
        strip_dashes(p + x) == p + strip_dashes(x),
    decreases p.len(),
{
    if p.len() == 0 {
        assert(p + x =~= x);
        assert(p + strip_dashes(x) =~= strip_dashes(x));
    } else {
        let tail = p.skip(1);
        assert forall|i: int| 0 <= i < tail.len() implies #[trigger] tail[i] != '-' by {
            assert(tail[i] == p[i + 1]);
        }
        lemma_strip_prefix(tail, x);
        assert((p + x)[0] == p[0]);
        assert((p + x).skip(1) =~= tail + x);
        assert(seq![p[0]] + (tail + strip_dashes(x)) =~= p + strip_dashes(x));
    }
}

/// A flag `--name==value`, with no dash or equals sign in the name and no double dash or
/// double equals sign in the value, reads as the name with the value: a single `=` in the
/// value stays in it, and the value's pieces between commas become the name's values.
pub proof fn lemma_flag_reads_name_and_value(name: Seq<char>, value: Seq<char>)
    requires
        forall|i: int| 0 <= i < name.len() ==> #[trigger] name[i] != '-' && name[i] != '=',
        no_double_dash(value),
        !has_eq_eq(value),
    ensures
        is_flag(seq!['-', '-'] + name + seq!['=', '='] + value),
        readable_flag(seq!['-', '-'] + name + seq!['=', '='] + value),
        flag_name(seq!['-', '-'] + name + seq!['=', '='] + value) == name,
        flag_value_text(seq!['-', '-'] + name + seq!['=', '='] + value) == value,
        arg_table(seq![seq!['-', '-'] + name + seq!['=', '='] + value]) == Map::<
            Seq<char>,
            Seq<Seq<char>>,
        >::empty().insert(name, split_on(value, ',')),
{
    let arg = seq!['-', '-'] + name + seq!['=', '='] + value;
    let body = name + seq!['=', '='];
    let s = body + value;
    assert forall|i: int| 0 <= i < body.len() implies #[trigger] body[i] != '-' by {
        if i < name.len() {
            assert(body[i] == name[i]);
        }
    }
    lemma_strip_keeps(value);
    lemma_strip_prefix(body, value);
    assert(arg =~= seq!['-', '-'] + s);
    assert(arg.skip(2) =~= s);
    assert(strip_dashes(arg) == strip_dashes(s));
    assert(strip_dashes(s) == s);
    let n = name.len() as int;
    assert(first_eq_eq(s, n)) by {
        assert(s[n] == '=' && s[n + 1] == '=');
        assert forall|j: int| 0 <= j < n implies !eq_eq_at(s, j) by {
            assert(s[j] == name[j]);
        }
    }
    lemma_first_eq_eq_unique(s, n);
    assert(s.take(n) =~= name);
    assert(s.skip(n + 2) =~= value);
    let args = seq![arg];
    assert(args.drop_last() =~= Seq::<Seq<char>>::empty());
    assert(args.last() == arg);
    assert(arg_table(args.drop_last()) == Map::<Seq<char>, Seq<Seq<char>>>::empty());
    assert(is_flag(args.last()));
    assert(flag_name(args.last()) == name);
    assert(flag_value_text(args.last()) == value);
}

} // verus!
