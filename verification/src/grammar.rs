//! The grammar of a log line and the meaning of a log, as mathematics.
//!
//! ```text
//! line         := control-line | record-line | ""
//! control-line := ":" name [ " " argument ]
//! record-line  := key "=" value
//! ```
//!
//! Keys, values and the argument of `del` are runs of the letters `a` to `z`.

use crate::error::{Context, ParseFault};
use vstd::prelude::*;

verus! {

/// What a mapping holds: texts by their keys.
pub type Store = Map<Seq<char>, Seq<char>>;

/// One item of the input: the text of a line, or why it could not be read.
pub type Line = Result<Seq<char>, Seq<char>>;

/// What a well-formed line asks of the mapping.
pub enum Edit {
    /// An empty line: nothing.
    Keep,
    /// A record: bind `key` to `value`, replacing an earlier binding.
    Put { key: Seq<char>, value: Seq<char> },
    /// `:del key`: drop the binding of `key`, if there is one.
    Delete { key: Seq<char> },
}

/// The result of scanning a line, or the rest of one, from its first
/// character.
pub struct Scan {
    /// The edit that the text asks for, or the fault found in it.
    pub outcome: Result<Edit, ParseFault>,
    /// The characters that the scanner has not consumed.
    pub rest: Seq<char>,
}

/// The characters that keys and values are made of.
pub open spec fn is_letter(c: char) -> bool {
    'a' <= c && c <= 'z'
}

/// Whether `s` consists of letters only.
pub open spec fn all_letters(s: Seq<char>) -> bool {
    forall|i: int| 0 <= i < s.len() ==> is_letter(#[trigger] s[i])
}

/// The length of the longest prefix of `s` that consists of letters.
pub open spec fn letter_run(s: Seq<char>) -> nat
    decreases s.len(),
{
    if s.len() > 0 && is_letter(s[0]) {
        1 + letter_run(s.skip(1))
    } else {
        0
    }
}

/// The length of the longest prefix of `s` that holds no space.
pub open spec fn word_len(s: Seq<char>) -> nat
    decreases s.len(),
{
    if s.len() > 0 && s[0] != ' ' {
        1 + word_len(s.skip(1))
    } else {
        0
    }
}

/// Scans letters up to the end of the line: the token that ends a line.
pub open spec fn scan_token(s: Seq<char>, context: Context) -> Result<Seq<char>, ParseFault> {
    let n = letter_run(s);
    if n == s.len() {
        Ok(s)
    } else {
        Err(ParseFault::InvalidCharacter { context, found: s[n as int] })
    }
}

/// Scans the argument of `del`.
pub open spec fn scan_delete_key(s: Seq<char>) -> Scan {
    Scan {
        outcome: match scan_token(s, Context::DeleteKey) {
            Ok(key) => Ok(Edit::Delete { key }),
            Err(fault) => Err(fault),
        },
        rest: s.skip(letter_run(s) as int),
    }
}

/// Scans the value of the record whose key is `key`.
pub open spec fn scan_value(key: Seq<char>, s: Seq<char>) -> Scan {
    Scan {
        outcome: match scan_token(s, Context::Value) {
            Ok(value) => Ok(Edit::Put { key, value }),
            Err(fault) => Err(fault),
        },
        rest: s.skip(letter_run(s) as int),
    }
}

/// Scans a record line: a key, `=`, and a value.
pub open spec fn scan_record(s: Seq<char>) -> Scan {
    let n = letter_run(s) as int;
    if n == s.len() {
        Scan { outcome: Err(ParseFault::UnterminatedKey), rest: s.skip(n) }
    } else if s[n] == '=' {
        scan_value(s.take(n), s.skip(n + 1))
    } else {
        Scan {
            outcome: Err(ParseFault::InvalidCharacter { context: Context::Key, found: s[n] }),
            rest: s.skip(n),
        }
    }
}

/// The part of a control line that follows its name and the space after it.
pub open spec fn control_argument(s: Seq<char>) -> Seq<char> {
    let n = word_len(s) as int;
    if n < s.len() {
        s.skip(n + 1)
    } else {
        s.skip(n)
    }
}

/// Scans a control line from the character after its `:`.
pub open spec fn scan_control(s: Seq<char>) -> Scan {
    let name = s.take(word_len(s) as int);
    let argument = control_argument(s);
    if name == "del"@ {
        scan_delete_key(argument)
    } else {
        Scan { outcome: Err(ParseFault::UnrecognizedControl(name)), rest: argument }
    }
}

/// Scans a whole line.
pub open spec fn scan_line(s: Seq<char>) -> Scan {
    if s.len() == 0 {
        Scan { outcome: Ok(Edit::Keep), rest: s }
    } else if s[0] == ':' {
        scan_control(s.skip(1))
    } else {
        scan_record(s)
    }
}

/// Whether the keys and the values of `store` consist of letters only.
pub open spec fn holds_letters(store: Store) -> bool {
    forall|key: Seq<char>| #[trigger]
        store.contains_key(key) ==> all_letters(key) && all_letters(store[key])
}

/// The mapping after `edit`.
pub open spec fn apply(store: Store, edit: Edit) -> Store {
    match edit {
        Edit::Keep => store,
        Edit::Put { key, value } => store.insert(key, value),
        Edit::Delete { key } => store.remove(key),
    }
}

/// The fault that `line` brings to any replay, if it brings one: that it could
/// not be read, or what is wrong with its text.
pub open spec fn fault_of(line: Line) -> Option<ParseFault> {
    match line {
        Err(reason) => Some(ParseFault::IoFailure(reason)),
        Ok(text) => match scan_line(text).outcome {
            Ok(_) => None,
            Err(fault) => Some(fault),
        },
    }
}

/// The mapping after one more line, or the fault that the line brings.
pub open spec fn step(store: Store, line: Line) -> Result<Store, ParseFault> {
    match line {
        Err(reason) => Err(ParseFault::IoFailure(reason)),
        Ok(text) => match scan_line(text).outcome {
            Ok(edit) => Ok(apply(store, edit)),
            Err(fault) => Err(fault),
        },
    }
}

/// Replays `lines` in order on `store`; the first fault ends the replay.
pub open spec fn replay_from(store: Store, lines: Seq<Line>) -> Result<Store, ParseFault>
    decreases lines.len(),
{
    if lines.len() == 0 {
        Ok(store)
    } else {
        match step(store, lines[0]) {
            Ok(next) => replay_from(next, lines.skip(1)),
            Err(fault) => Err(fault),
        }
    }
}

/// Replays `lines` on an empty mapping.
pub open spec fn replay(lines: Seq<Line>) -> Result<Store, ParseFault> {
    replay_from(Map::empty(), lines)
}

/// `letter_run(s)` is within `s`, covers letters only, and stops at the end
/// of `s` or before a character that is no letter.
pub proof fn lemma_letter_run(s: Seq<char>)
    ensures
        letter_run(s) <= s.len(),
        all_letters(s.take(letter_run(s) as int)),
        letter_run(s) < s.len() ==> !is_letter(s[letter_run(s) as int]),
    decreases s.len(),
{
    if s.len() > 0 && is_letter(s[0]) {
        lemma_letter_run(s.skip(1));
        let n = letter_run(s) as int;
        assert forall|i: int| 0 <= i < n implies is_letter(#[trigger] s.take(n)[i]) by {
            if i > 0 {
                assert(s.take(n)[i] == s.skip(1).take(n - 1)[i - 1]);
            }
        }
    }
}

/// `letter_run(s)` is the only length of which [`lemma_letter_run`] holds.
pub proof fn lemma_letter_run_is(s: Seq<char>, n: int)
    requires
        0 <= n <= s.len(),
        all_letters(s.take(n)),
        n < s.len() ==> !is_letter(s[n]),
    ensures
        letter_run(s) == n,
    decreases n,
{
    if n > 0 {
        assert(s[0] == s.take(n)[0]);
        let tail = s.skip(1);
        assert forall|i: int| 0 <= i < n - 1 implies is_letter(#[trigger] tail.take(n - 1)[i]) by {
            assert(tail.take(n - 1)[i] == s.take(n)[i + 1]);
        }
        lemma_letter_run_is(tail, n - 1);
    }
}

/// `word_len(s)` is within `s`, covers no space, and stops at the end of `s`
/// or before a space.
pub proof fn lemma_word_len(s: Seq<char>)
    ensures
        word_len(s) <= s.len(),
        forall|i: int| 0 <= i < word_len(s) ==> s[i] != ' ',
        word_len(s) < s.len() ==> s[word_len(s) as int] == ' ',
    decreases s.len(),
{
    if s.len() > 0 && s[0] != ' ' {
        lemma_word_len(s.skip(1));
        assert forall|i: int| 0 <= i < word_len(s) implies s[i] != ' ' by {
            if i > 0 {
                assert(s[i] == s.skip(1)[i - 1]);
            }
        }
    }
}

/// `word_len(s)` is the only length of which [`lemma_word_len`] holds.
pub proof fn lemma_word_len_is(s: Seq<char>, n: int)
    requires
        0 <= n <= s.len(),
        forall|i: int| 0 <= i < n ==> s[i] != ' ',
        n < s.len() ==> s[n] == ' ',
    ensures
        word_len(s) == n,
    decreases n,
{
    if n > 0 {
        let tail = s.skip(1);
        assert forall|i: int| 0 <= i < n - 1 implies tail[i] != ' ' by {
            assert(tail[i] == s[i + 1]);
        }
        lemma_word_len_is(tail, n - 1);
    }
}

} // verus!
