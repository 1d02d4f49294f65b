//! The command line: which options the program takes, and how a list of
//! arguments becomes a map from options to values.
use vstd::prelude::*;
use vstd::string::*;

use crate::text::same_text;

verus! {

/// Selects the files to compile.
pub const RANGE_ARG: &'static str = "-r";

/// Selects the engine.
pub const ENGINE_ARG: &'static str = "-e";

/// Names the output file.
pub const JOBNAME_ARG: &'static str = "-j";

/// Names the configuration file.
pub const FILENAME_ARG: &'static str = "-f";

/// Passes an option to the document class.
pub const CLASS_OPTION: &'static str = "-o";

/// A flag: remove the auxiliary files.
pub const COMPILE_ARG: &'static str = "-c";

/// A flag: report what the program does.
pub const VERBOSE_ARG: &'static str = "-v";

/// Asks for the help page.
pub const HELP_ARG: &'static str = "-h";

/// Asks for the auxiliary files to be removed (the same flag as `COMPILE_ARG`).
pub const CLEAN_ARG: &'static str = "-c";

/// Asks for a dry run: show the command, do not compile.
pub const DRYRUN_ARG: &'static str = "-d";

/// Asks for no output.
pub const QUIET_ARG: &'static str = "-q";

/// The text that a flag is given as its value.
pub const FLAG_VALUE: &'static str = "true";

/// The entries of a map from options to values, in the order in which their
/// keys were first inserted.
pub type Entries = Seq<(Seq<char>, Seq<char>)>;

/// No key occurs twice.
pub open spec fn keys_unique(e: Entries) -> bool {
    forall|i: int, j: int| 0 <= i < e.len() && 0 <= j < e.len() && i != j ==> e[i].0 != e[j].0
}

/// `k` is a key of `e`.
pub open spec fn has_key(e: Entries, k: Seq<char>) -> bool {
    exists|i: int| 0 <= i < e.len() && e[i].0 == k
}

/// The value stored under `k`, if any.
pub open spec fn lookup(e: Entries, k: Seq<char>) -> Option<Seq<char>> {
    if has_key(e, k) {
        Some(e[choose|i: int| 0 <= i < e.len() && e[i].0 == k].1)
    } else {
        None
    }
}

/// `e` after storing `v` under `k`: the value of an existing key is replaced
/// in place, a new key goes last.
pub open spec fn insert_entry(e: Entries, k: Seq<char>, v: Seq<char>) -> Entries {
    if has_key(e, k) {
        e.update(choose|i: int| 0 <= i < e.len() && e[i].0 == k, (k, v))
    } else {
        e.push((k, v))
    }
}

/// A map from options to values (for a flag, the value is `true`).
pub struct ArgMap {
    entries: Vec<(String, String)>,
}

impl View for ArgMap {
    type V = Entries;

    closed spec fn view(&self) -> Entries {
        self.entries@.map_values(|e: (String, String)| (e.0@, e.1@))
    }
}

impl ArgMap {
    #[verifier::type_invariant]
    spec fn unique(&self) -> bool {
        keys_unique(self@)
    }

    /// An empty map.
    pub fn new() -> (m: ArgMap)
        ensures
            m@ == Seq::<(Seq<char>, Seq<char>)>::empty(),
    {
        let m = ArgMap { entries: Vec::new() };
        assert(m@ =~= Seq::<(Seq<char>, Seq<char>)>::empty());
        m
    }

    /// The number of entries.
    pub fn len(&self) -> (n: usize)
        ensures
            n == self@.len(),
    {
        self.entries.len()
    }

    /// The entries, in order.
    pub fn entries(&self) -> (r: &Vec<(String, String)>)
        ensures
            r@.map_values(|e: (String, String)| (e.0@, e.1@)) == self@,
            keys_unique(self@),
    {
        proof {
            use_type_invariant(self);
        }
        &self.entries
    }

    fn find(&self, key: &str) -> (r: Option<usize>)
        ensures
            keys_unique(self@),
            match r {
                Some(i) => i < self@.len() && self@[i as int].0 == key@,
                None => !has_key(self@, key@),
            },
    {
        proof {
            use_type_invariant(self);
        }
        let mut i: usize = 0;
        while i < self.entries.len()
            invariant
                i <= self@.len(),
                self@.len() == self.entries@.len(),
                forall|j: int| 0 <= j < i ==> self@[j].0 != key@,
                keys_unique(self@),
            decreases self@.len() - i,
        {
            if same_text(self.entries[i].0.as_str(), key) {
                return Some(i);
            }
            i += 1;
        }
        None
    }

    /// The value stored under `key`, if any.
    pub fn get(&self, key: &str) -> (r: Option<&String>)
        ensures
            match r {
                Some(v) => lookup(self@, key@) == Some(v@),
                None => lookup(self@, key@) is None,
            },
    {
        match self.find(key) {
            Some(i) => {
                proof {
                    let c = choose|j: int| 0 <= j < self@.len() && self@[j].0 == key@;
                    assert(c == i);
                }
                Some(&self.entries[i].1)
            },
            None => None,
        }
    }

    /// Whether `key` is stored.
    pub fn contains_key(&self, key: &str) -> (r: bool)
        ensures
            r == has_key(self@, key@),
    {
        self.find(key).is_some()
    }

    /// Stores `value` under `key`.
    pub fn insert(&mut self, key: String, value: String)
        ensures
            final(self)@ == insert_entry(old(self)@, key@, value@),
    {
        let found = self.find(key.as_str());
        let ghost before = self@;
        let ghost k = key@;
        let ghost v = value@;
        let mut entries: Vec<(String, String)> = Vec::new();
        std::mem::swap(&mut entries, &mut self.entries);
        assert(entries@.map_values(|e: (String, String)| (e.0@, e.1@)) == before);
        match found {
            Some(i) => {
                proof {
                    let c = choose|j: int| 0 <= j < before.len() && before[j].0 == k;
                    assert(c == i);
                }
                entries.set(i, (key, value));
                assert(entries@.map_values(|e: (String, String)| (e.0@, e.1@)) =~= before.update(
                    i as int,
                    (k, v),
                ));
            },
            None => {
                entries.push((key, value));
                assert(entries@.map_values(|e: (String, String)| (e.0@, e.1@)) =~= before.push(
                    (k, v),
                ));
            },
        }
        self.entries = entries;
    }
}

/// `k` is one of the options that take a value.
pub open spec fn is_option_key(k: Seq<char>) -> bool {
    ||| k == FILENAME_ARG@
    ||| k == RANGE_ARG@
    ||| k == ENGINE_ARG@
    ||| k == JOBNAME_ARG@
    ||| k == CLASS_OPTION@
}

/// `k` is a flag: an option that takes no value (`-c`, `-d`, `-h`, `-q`,
/// `-v`).
pub open spec fn is_flag_key(k: Seq<char>) -> bool {
    ||| k == COMPILE_ARG@
    ||| k == DRYRUN_ARG@
    ||| k == HELP_ARG@
    ||| k == QUIET_ARG@
    ||| k == VERBOSE_ARG@
}

/// `k` is an option that `parse` can put in its map.
pub open spec fn is_known_key(k: Seq<char>) -> bool {
    is_option_key(k) || is_flag_key(k)
}

/// The map that `parse` builds from `args`, reading from position `idx` on
/// with the entries `acc` read so far: a flag takes one argument and is
/// stored with the value `true`; any other argument is read as a key with the next one
/// (or the empty text, at the end) as its value, and the pair is stored when
/// the key takes a value.
pub open spec fn parse_from(args: Seq<Seq<char>>, idx: int, acc: Entries) -> Entries
    decreases args.len() + 1 - idx,
{
    if idx < 0 || idx >= args.len() {
        acc
    } else {
        let key = args[idx];
        let value = if idx + 1 < args.len() {
            args[idx + 1]
        } else {
            Seq::empty()
        };
        if is_flag_key(key) {
            parse_from(args, idx + 1, insert_entry(acc, key, FLAG_VALUE@))
        } else if is_option_key(key) {
            parse_from(args, idx + 2, insert_entry(acc, key, value))
        } else {
            parse_from(args, idx + 2, acc)
        }
    }
}

/// The map that `parse` builds from the program's arguments `args` (the first
/// of which, the program's name, is skipped).
pub open spec fn parse_spec(args: Seq<Seq<char>>) -> Entries {
    parse_from(args, 1, Seq::empty())
}

/// Every key of `e` is one that `parse` knows.
pub open spec fn all_keys_known(e: Entries) -> bool {
    forall|i: int| 0 <= i < e.len() ==> is_known_key(#[trigger] e[i].0)
}

/// A flag is stored with the value `true`.
pub open spec fn flags_are_true(e: Entries) -> bool {
    forall|i: int|
        0 <= i < e.len() && is_flag_key(e[i].0) ==> #[trigger] e[i].1 == FLAG_VALUE@
}

proof fn lemma_insert_keeps(e: Entries, k: Seq<char>, v: Seq<char>)
    requires
        all_keys_known(e),
        flags_are_true(e),
        is_known_key(k),
        is_flag_key(k) ==> v == FLAG_VALUE@,
    ensures
        all_keys_known(insert_entry(e, k, v)),
        flags_are_true(insert_entry(e, k, v)),
{
}

proof fn lemma_parse_from_keys(args: Seq<Seq<char>>, idx: int, acc: Entries)
    requires
        all_keys_known(acc),
        flags_are_true(acc),
    ensures
        all_keys_known(parse_from(args, idx, acc)),
        flags_are_true(parse_from(args, idx, acc)),
    decreases args.len() + 1 - idx,
{
    if 0 <= idx < args.len() {
        let key = args[idx];
        let value = if idx + 1 < args.len() {
            args[idx + 1]
        } else {
            Seq::<char>::empty()
        };
        if is_flag_key(key) {
            lemma_insert_keeps(acc, key, FLAG_VALUE@);
            lemma_parse_from_keys(args, idx + 1, insert_entry(acc, key, FLAG_VALUE@));
        } else if is_option_key(key) {
            lemma_insert_keeps(acc, key, value);
            lemma_parse_from_keys(args, idx + 2, insert_entry(acc, key, value));
        } else {
            lemma_parse_from_keys(args, idx + 2, acc);
        }
    }
}

/// Every key in the map built from any argument list is one of the options
/// the program knows (five that take a value, five flags), and each flag in
/// it is stored as `true`.
pub proof fn lemma_parse_keys_known(args: Seq<Seq<char>>)
    ensures
        all_keys_known(parse_spec(args)),
        flags_are_true(parse_spec(args)),
{
    lemma_parse_from_keys(args, 1, Seq::empty());
}

/// Whether `key` is one of the options that take a value (the value itself
/// is not looked at).
pub fn parse_argument(key: &String, value: &String) -> (r: bool)
    ensures
        r == is_option_key(key@),
{
    same_text(key.as_str(), FILENAME_ARG) || same_text(key.as_str(), RANGE_ARG) || same_text(
        key.as_str(),
        ENGINE_ARG,
    ) || same_text(key.as_str(), JOBNAME_ARG) || same_text(key.as_str(), CLASS_OPTION)
}

/// Whether `key` is a flag (an option that takes no value).
pub fn is_flag(key: &str) -> (r: bool)
    ensures
        r == is_flag_key(key@),
{
    same_text(key, COMPILE_ARG) || same_text(key, DRYRUN_ARG) || same_text(key, HELP_ARG)
        || same_text(key, QUIET_ARG) || same_text(key, VERBOSE_ARG)
}

/// Reads the program's arguments into a map from options to values. The
/// first argument, the program's name, is skipped.
pub fn parse(args: Vec<String>) -> (map: ArgMap)
    ensures
        map@ == parse_spec(args@.map_values(|s: String| s@)),
        all_keys_known(map@),
        flags_are_true(map@),
{
    let ghost a = args@.map_values(|s: String| s@);
    let mut map = ArgMap::new();
    let n = args.len();
    let mut idx: usize = 1;
    while idx < n
        invariant
            n == args@.len(),
            a == args@.map_values(|s: String| s@),
            1 <= idx,
            parse_from(a, idx as int, map@) == parse_spec(a),
        decreases n - idx,
    {
        let key = args[idx].clone();
        let value = if idx + 1 < n {
            args[idx + 1].clone()
        } else {
            String::new()
        };
        assert(key@ == a[idx as int]);
        if is_flag(key.as_str()) {
            map.insert(key, FLAG_VALUE.to_owned());
            idx += 1;
        } else {
            if parse_argument(&key, &value) {
                map.insert(key, value);
            }
            if idx + 1 >= n {
                proof {
                    assert(parse_from(a, idx + 2, map@) == map@);
                }
                idx = n;
            } else {
                idx += 2;
            }
        }
    }
    proof {
        lemma_parse_keys_known(a);
    }
    map
}

} // verus!
