//! What holds of every replay.

use crate::error::ParseFault;
use crate::grammar::{
    all_letters, control_argument, fault_of, holds_letters, lemma_letter_run,
    lemma_letter_run_is, lemma_word_len, lemma_word_len_is, letter_run, replay, replay_from,
    scan_line, step, word_len, Edit, Line, Scan, Store,
};
use vstd::prelude::*;

verus! {

/// The text of the record that binds `key` to `value`.
pub open spec fn record_line(key: Seq<char>, value: Seq<char>) -> Seq<char> {
    key.push('=') + value
}

/// The text of the directive that drops the binding of `key`.
pub open spec fn delete_line(key: Seq<char>) -> Seq<char> {
    ":del "@ + key
}

/// A record line of letters is scanned to its end and asks to bind its key
/// to its value; the value may be empty.
pub proof fn lemma_record_line_binds(key: Seq<char>, value: Seq<char>)
    requires
        all_letters(key),
        all_letters(value),
    ensures
        scan_line(record_line(key, value)) == (Scan {
            outcome: Ok(Edit::Put { key, value }),
            rest: Seq::empty(),
        }),
{
    let line = record_line(key, value);
    let n = key.len() as int;
    assert(line.take(n) =~= key);
    assert(line[n] == '=');
    assert(line.skip(n + 1) =~= value);
    lemma_letter_run_is(line, n);
    assert(value.take(value.len() as int) =~= value);
    lemma_letter_run_is(value, value.len() as int);
    assert(value.skip(value.len() as int) =~= Seq::<char>::empty());
    assert(line[0] != ':') by {
        if n > 0 {
            assert(line[0] == key[0]);
        }
    }
}

/// A `:del` line with a key of letters is scanned to its end and asks to
/// drop the binding of that key.
pub proof fn lemma_delete_line_drops(key: Seq<char>)
    requires
        all_letters(key),
    ensures
        scan_line(delete_line(key)) == (Scan {
            outcome: Ok(Edit::Delete { key }),
            rest: Seq::empty(),
        }),
{
    reveal_strlit(":del ");
    reveal_strlit("del");
    let line = delete_line(key);
    let after_colon = line.skip(1);
    assert(line[0] == ':');
    lemma_word_len_is(after_colon, 3);
    assert(after_colon.take(3) =~= "del"@);
    assert(after_colon.skip(4) =~= key);
    assert(key.take(key.len() as int) =~= key);
    lemma_letter_run_is(key, key.len() as int);
    assert(key.skip(key.len() as int) =~= Seq::<char>::empty());
}

/// A line is accepted only as the grammar reads it: an empty line, a record of
/// letters around one `=`, or `:del` with a key of letters after one space (or
/// alone, for the empty key). An accepted line is scanned to its end.
pub proof fn lemma_accepted_lines(line: Seq<char>)
    ensures
        match scan_line(line).outcome {
            Ok(Edit::Keep) => line.len() == 0,
            Ok(Edit::Put { key, value }) => all_letters(key) && all_letters(value) && line
                == record_line(key, value),
            Ok(Edit::Delete { key }) => all_letters(key) && (line == delete_line(key) || (key.len()
                == 0 && line == ":del"@)),
            Err(_) => true,
        },
        scan_line(line).outcome is Ok ==> scan_line(line).rest.len() == 0,
{
    reveal_strlit(":del ");
    reveal_strlit(":del");
    reveal_strlit("del");
    if line.len() == 0 {
    } else if line[0] == ':' {
        let after_colon = line.skip(1);
        let argument = control_argument(after_colon);
        lemma_word_len(after_colon);
        lemma_letter_run(argument);
        if scan_line(line).outcome is Ok {
            let w = word_len(after_colon) as int;
            assert(after_colon.take(w) == "del"@);
            assert(w == 3);
            assert(argument.take(argument.len() as int) =~= argument);
            assert forall|i: int| 0 <= i < 4 implies line[i] == ":del"@[i] by {
                if i > 0 {
                    assert(line[i] == after_colon.take(w)[i - 1]);
                }
            }
            if w < after_colon.len() {
                let spelled = delete_line(argument);
                assert(line.len() == spelled.len());
                assert forall|i: int| 0 <= i < line.len() implies line[i] == spelled[i] by {
                    if i < 4 {
                        assert(spelled[i] == ":del"@[i]);
                    } else if i > 4 {
                        assert(line[i] == argument[i - 5]);
                    }
                }
                assert(line =~= spelled);
            } else {
                assert(line =~= ":del"@);
            }
        }
    } else {
        let n = letter_run(line) as int;
        lemma_letter_run(line);
        if scan_line(line).outcome is Ok {
            let value = line.skip(n + 1);
            lemma_letter_run(value);
            assert(value.take(value.len() as int) =~= value);
            assert(line =~= record_line(line.take(n), value));
        }
    }
}

/// Replaying two logs one after the other is replaying the first and then,
/// unless it failed, the second on the mapping that the first left.
pub proof fn lemma_replay_concat(store: Store, first: Seq<Line>, second: Seq<Line>)
    ensures
        replay_from(store, first + second) == match replay_from(store, first) {
            Ok(between) => replay_from(between, second),
            Err(fault) => Err(fault),
        },
    decreases first.len(),
{
    if first.len() == 0 {
        assert(first + second =~= second);
    } else {
        assert((first + second)[0] == first[0]);
        assert((first + second).skip(1) =~= first.skip(1) + second);
        match step(store, first[0]) {
            Ok(next) => {
                lemma_replay_concat(next, first.skip(1), second);
            },
            Err(_) => {},
        }
    }
}

/// The first faulty line decides: a replay in which the lines before `at`
/// bring no fault and the line at `at` brings one ends with that fault,
/// whatever the mapping held and whatever follows.
pub proof fn lemma_first_fault_decides(store: Store, lines: Seq<Line>, at: int)
    requires
        0 <= at < lines.len(),
        forall|i: int| 0 <= i < at ==> fault_of(#[trigger] lines[i]) is None,
        fault_of(lines[at]) is Some,
    ensures
        replay_from(store, lines) == Err::<Store, ParseFault>(fault_of(lines[at])->Some_0),
    decreases at,
{
    if at > 0 {
        assert(fault_of(lines[0]) is None);
        let rest = lines.skip(1);
        assert forall|i: int| 0 <= i < at - 1 implies fault_of(#[trigger] rest[i]) is None by {
            assert(rest[i] == lines[i + 1]);
        }
        lemma_first_fault_decides(step(store, lines[0])->Ok_0, rest, at - 1);
    }
}

/// A replay succeeds exactly if no line brings a fault.
pub proof fn lemma_faultless_replay_succeeds(store: Store, lines: Seq<Line>)
    ensures
        replay_from(store, lines) is Ok <==> forall|i: int|
            0 <= i < lines.len() ==> fault_of(#[trigger] lines[i]) is None,
    decreases lines.len(),
{
    if lines.len() > 0 {
        let rest = lines.skip(1);
        match step(store, lines[0]) {
            Ok(next) => {
                lemma_faultless_replay_succeeds(next, rest);
                if replay_from(store, lines) is Ok {
                    assert forall|i: int| 0 <= i < lines.len() implies fault_of(
                        #[trigger] lines[i],
                    ) is None by {
                        if i > 0 {
                            assert(lines[i] == rest[i - 1]);
                        }
                    }
                } else {
                    let i = choose|i: int|
                        0 <= i < rest.len() && !(fault_of(#[trigger] rest[i]) is None);
                    assert(lines[i + 1] == rest[i]);
                }
            },
            Err(_) => {
                assert(fault_of(lines[0]) is Some);
            },
        }
    }
}

/// After each line that was replayed without a fault, the mapping is what
/// the lines before it left, changed by that line alone; after a fault no
/// later line counts.
pub proof fn lemma_replay_extends(lines: Seq<Line>, line: Line)
    ensures
        replay(lines.push(line)) == match replay(lines) {
            Ok(store) => step(store, line),
            Err(fault) => Err(fault),
        },
{
    let last = seq![line];
    assert(lines.push(line) =~= lines + last);
    lemma_replay_concat(Map::empty(), lines, last);
    assert(last.skip(1) =~= Seq::<Line>::empty());
    assert forall|store: Store| #[trigger] replay_from(store, last) == step(store, line) by {
        match step(store, line) {
            Ok(next) => {
                assert(replay_from(next, last.skip(1)) == Ok::<Store, ParseFault>(next));
            },
            Err(_) => {},
        }
    }
}

/// A replay binds letters to letters: where the mapping held nothing else
/// before, it holds nothing else after.
pub proof fn lemma_replay_keeps_letters(store: Store, lines: Seq<Line>)
    requires
        holds_letters(store),
    ensures
        replay_from(store, lines) matches Ok(after) ==> holds_letters(after),
    decreases lines.len(),
{
    if lines.len() > 0 {
        match step(store, lines[0]) {
            Ok(next) => {
                lemma_accepted_lines(lines[0]->Ok_0);
                lemma_replay_keeps_letters(next, lines.skip(1));
            },
            Err(_) => {},
        }
    }
}

/// Last write wins: of two consecutive records with the same key, the
/// second decides what the key is bound to.
pub proof fn lemma_last_write_wins(
    lines: Seq<Line>,
    key: Seq<char>,
    first: Seq<char>,
    second: Seq<char>,
)
    requires
        replay(lines) is Ok,
        all_letters(key),
        all_letters(first),
        all_letters(second),
    ensures
        replay(lines.push(Ok(record_line(key, first))).push(Ok(record_line(key, second))))
            matches Ok(store) && store.contains_key(key) && store[key] == second,
{
    let once = lines.push(Ok(record_line(key, first)));
    lemma_record_line_binds(key, first);
    lemma_record_line_binds(key, second);
    lemma_replay_extends(lines, Ok(record_line(key, first)));
    lemma_replay_extends(once, Ok(record_line(key, second)));
}

/// Deleting a key that is not bound succeeds and changes nothing.
pub proof fn lemma_delete_absent(lines: Seq<Line>, key: Seq<char>)
    requires
        replay(lines) matches Ok(store) && !store.contains_key(key),
        all_letters(key),
    ensures
        replay(lines.push(Ok(delete_line(key)))) == replay(lines),
{
    lemma_delete_line_drops(key);
    lemma_replay_extends(lines, Ok(delete_line(key)));
    let store = replay(lines)->Ok_0;
    assert(store.remove(key) =~= store);
}

/// Order matters: a record followed by the deletion of its key leaves the
/// key unbound, the deletion followed by the record leaves it bound to the
/// record's value.
pub proof fn lemma_order_matters(key: Seq<char>, value: Seq<char>)
    requires
        all_letters(key),
        all_letters(value),
    ensures
        replay(seq![Ok(record_line(key, value)), Ok(delete_line(key))]) matches Ok(store)
            && !store.contains_key(key),
        replay(seq![Ok(delete_line(key)), Ok(record_line(key, value))]) matches Ok(store)
            && store.contains_key(key) && store[key] == value,
{
    let record: Line = Ok(record_line(key, value));
    let delete: Line = Ok(delete_line(key));
    let none = Seq::<Line>::empty();
    lemma_record_line_binds(key, value);
    lemma_delete_line_drops(key);
    assert(seq![record, delete] =~= none.push(record).push(delete));
    assert(seq![delete, record] =~= none.push(delete).push(record));
    lemma_replay_extends(none, record);
    lemma_replay_extends(none.push(record), delete);
    lemma_replay_extends(none, delete);
    lemma_replay_extends(none.push(delete), record);
}

} // verus!
