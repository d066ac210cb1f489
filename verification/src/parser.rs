//! The replayer: scans each line and applies it to the mapping.

use crate::cursor::Cursor;
use crate::error::{Context, ParseError};
use crate::grammar::{
    all_letters, apply, control_argument, holds_letters, is_letter, lemma_letter_run,
    lemma_letter_run_is, lemma_word_len_is, letter_run, replay, replay_from, scan_control,
    scan_delete_key, scan_line, scan_record, scan_value, word_len, Line, Scan, Store,
};
use crate::laws::lemma_replay_keeps_letters;
use crate::mapping::Mapping;
use crate::text::same_text;
use vstd::prelude::*;

verus! {

/// Whether a call has carried out `scan`: the cursor stands where the scan
/// ended, and the mapping has taken the edit and the call succeeded, or the
/// call returned the fault and the mapping is as it was.
pub open spec fn carried_out(
    scan: Scan,
    before: Store,
    after: Store,
    rest: Seq<char>,
    result: Result<(), ParseError>,
) -> bool {
    &&& rest == scan.rest
    &&& match scan.outcome {
        Ok(edit) => result is Ok && after == apply(before, edit),
        Err(fault) => result matches Err(error) && error@ == fault && after == before,
    }
}

/// The input as mathematics: each line by its characters, each failure by
/// the characters of its reason.
pub open spec fn line_models(lines: Seq<Result<String, String>>) -> Seq<Line> {
    Seq::new(
        lines.len(),
        |i: int|
            match lines[i] {
                Ok(text) => Ok(text@),
                Err(reason) => Err(reason@),
            },
    )
}

/// Whether `c` is one of the letters `a` to `z`.
fn is_lowercase(c: char) -> (letter: bool)
    ensures
        letter == is_letter(c),
{
    'a' <= c && c <= 'z'
}

/// Consumes the letters at the cursor and returns them.
fn scan_letters(line: &mut Cursor) -> (token: String)
    ensures
        token@ == old(line)@.take(letter_run(old(line)@) as int),
        final(line)@ == old(line)@.skip(letter_run(old(line)@) as int),
{
    let ghost start = line@;
    let mut token = String::new();
    loop
        invariant
            start == token@ + line@,
            all_letters(token@),
        ensures
            start == token@ + line@,
            all_letters(token@),
            line@.len() > 0 ==> !is_letter(line@[0]),
        decreases line@.len(),
    {
        match line.peek() {
            Some(c) => {
                if is_lowercase(c) {
                    line.advance();
                    token.push(c);
                } else {
                    break ;
                }
            },
            None => {
                break ;
            },
        }
    }
    proof {
        let n = token@.len() as int;
        assert(start.take(n) =~= token@);
        assert(start.skip(n) =~= line@);
        lemma_letter_run_is(start, n);
    }
    token
}

/// After the letters of `s` have been consumed, the cursor holds what
/// follows them: nothing, if `s` is all letters, and else a first character
/// that is no letter.
proof fn lemma_after_letters(s: Seq<char>)
    ensures
        letter_run(s) <= s.len(),
        s.skip(letter_run(s) as int).len() == s.len() - letter_run(s),
        letter_run(s) == s.len() ==> s.take(letter_run(s) as int) == s,
        letter_run(s) < s.len() ==> s.skip(letter_run(s) as int)[0] == s[letter_run(s) as int],
{
    lemma_letter_run(s);
    if letter_run(s) == s.len() {
        assert(s.take(letter_run(s) as int) =~= s);
    }
}

/// Consumes the characters at the cursor up to a space or the end of the
/// line and returns them; the space is consumed too.
fn scan_word(line: &mut Cursor) -> (word: String)
    ensures
        word@ == old(line)@.take(word_len(old(line)@) as int),
        final(line)@ == control_argument(old(line)@),
{
    let ghost start = line@;
    let mut word = String::new();
    loop
        invariant_except_break
            start == word@ + line@,
            forall|i: int| 0 <= i < word@.len() ==> word@[i] != ' ',
        ensures
            word@ == start.take(word_len(start) as int),
            line@ == control_argument(start),
        decreases line@.len(),
    {
        match line.peek() {
            Some(c) => {
                if c == ' ' {
                    proof {
                        let n = word@.len() as int;
                        assert(start.take(n) =~= word@);
                        assert(start[n] == line@[0]);
                        lemma_word_len_is(start, n);
                        assert(start.skip(n + 1) =~= line@.skip(1));
                    }
                    line.advance();
                    break ;
                } else {
                    line.advance();
                    word.push(c);
                }
            },
            None => {
                proof {
                    let n = word@.len() as int;
                    assert(start =~= word@);
                    assert(start.take(n) =~= word@);
                    lemma_word_len_is(start, n);
                    assert(start.skip(n) =~= line@);
                }
                break ;
            },
        }
    }
    word
}

/// The directive that a control line names.
#[derive(Debug, PartialEq, Eq)]
pub enum Control {
    /// `del`: drop the binding of the key that follows.
    Delete,
    /// Any other name, as it was written.
    Unrecognized(String),
}

impl Control {
    /// The directive that goes by `name`.
    pub fn named(name: String) -> (control: Self)
        ensures
            match control {
                Control::Delete => name@ == "del"@,
                Control::Unrecognized(raw) => name@ != "del"@ && raw@ == name@,
            },
    {
        if same_text(name.as_str(), "del") {
            Control::Delete
        } else {
            Control::Unrecognized(name)
        }
    }
}

/// Replays a log on a mapping, line by line.
pub struct LogParser {
    key_value: Mapping,
}

impl View for LogParser {
    type V = Store;

    /// The mapping as the lines replayed so far have left it.
    closed spec fn view(&self) -> Store {
        self.key_value@
    }
}

impl LogParser {
    /// A replayer whose mapping is empty.
    pub fn new() -> (parser: Self)
        ensures
            parser@ == Store::empty(),
    {
        LogParser { key_value: Mapping::new() }
    }

    /// The mapping as the lines replayed so far have left it.
    pub fn key_value(&self) -> (mapping: &Mapping)
        ensures
            mapping@ == self@,
    {
        &self.key_value
    }

    /// Ends the replay and hands out the mapping.
    pub fn into_key_value(self) -> (mapping: Mapping)
        ensures
            mapping@ == self@,
    {
        self.key_value
    }

    /// Replays `lines` in order on an empty mapping and returns the mapping
    /// that results.
    ///
    /// The first line that could not be read or that is malformed ends the
    /// replay: its fault is returned, and no mapping.
    pub fn parse(lines: Vec<Result<String, String>>) -> (result: Result<Mapping, ParseError>)
        ensures
            match replay(line_models(lines@)) {
                Ok(store) => result matches Ok(mapping) && mapping@ == store,
                Err(fault) => result matches Err(error) && error@ == fault,
            },
            result matches Ok(mapping) ==> holds_letters(mapping@),
    {
        let ghost models = line_models(lines@);
        let mut parser = LogParser::new();
        let mut i: usize = 0;
        assert(models.skip(0) =~= models);
        while i < lines.len()
            invariant
                i <= lines.len(),
                models == line_models(lines@),
                replay(models) == replay_from(parser@, models.skip(i as int)),
            decreases lines.len() - i,
        {
            proof {
                assert(models.skip(i as int).skip(1) =~= models.skip(i + 1));
                assert(models.skip(i as int)[0] == models[i as int]);
            }
            match &lines[i] {
                Ok(text) => {
                    let mut line = Cursor::new(text.as_str());
                    match parser.parse_line(&mut line) {
                        Ok(()) => {},
                        Err(error) => {
                            return Err(error);
                        },
                    }
                },
                Err(reason) => {
                    return Err(ParseError::IoFailure(reason.clone()));
                },
            }
            i = i + 1;
        }
        proof {
            lemma_replay_keeps_letters(Map::empty(), models);
        }
        Ok(parser.into_key_value())
    }

    /// Scans a whole line and carries out what it asks for; an empty line
    /// asks for nothing.
    pub fn parse_line(&mut self, line: &mut Cursor) -> (result: Result<(), ParseError>)
        ensures
            carried_out(scan_line(old(line)@), old(self)@, final(self)@, final(line)@, result),
    {
        match line.peek() {
            Some(c) => {
                if c == ':' {
                    line.advance();
                    self.parse_control(line)
                } else {
                    self.parse_key_value_for_key(line)
                }
            },
            None => Ok(()),
        }
    }

    /// Scans a control line from the character after its `:` and carries
    /// out the directive.
    pub fn parse_control(&mut self, line: &mut Cursor) -> (result: Result<(), ParseError>)
        ensures
            carried_out(scan_control(old(line)@), old(self)@, final(self)@, final(line)@, result),
    {
        match Control::named(scan_word(line)) {
            Control::Delete => self.parse_del_key(line),
            Control::Unrecognized(name) => Err(ParseError::UnrecognizedControl(name)),
        }
    }

    /// Scans the argument of `del` and drops the binding of that key.
    pub fn parse_del_key(&mut self, line: &mut Cursor) -> (result: Result<(), ParseError>)
        ensures
            carried_out(
                scan_delete_key(old(line)@),
                old(self)@,
                final(self)@,
                final(line)@,
                result,
            ),
    {
        let key = scan_letters(line);
        proof {
            lemma_after_letters(old(line)@);
        }
        match line.peek() {
            Some(c) => Err(ParseError::InvalidCharacter { context: Context::DeleteKey, found: c }),
            None => {
                self.key_value.remove(key.as_str());
                Ok(())
            },
        }
    }

    /// Scans a record line from its first character and binds its key to
    /// its value.
    pub fn parse_key_value_for_key(&mut self, line: &mut Cursor) -> (result: Result<
        (),
        ParseError,
    >)
        ensures
            carried_out(scan_record(old(line)@), old(self)@, final(self)@, final(line)@, result),
    {
        let key = scan_letters(line);
        proof {
            lemma_after_letters(old(line)@);
        }
        match line.peek() {
            Some(c) => {
                if c == '=' {
                    line.advance();
                    assert(line@ =~= old(line)@.skip(letter_run(old(line)@) as int + 1));
                    self.parse_key_value_for_value(key, line)
                } else {
                    Err(ParseError::InvalidCharacter { context: Context::Key, found: c })
                }
            },
            None => Err(ParseError::UnterminatedKey),
        }
    }

    /// Scans the value of a record from the character after its `=` and
    /// binds `key` to it.
    pub fn parse_key_value_for_value(&mut self, key: String, line: &mut Cursor) -> (result:
        Result<(), ParseError>)
        ensures
            carried_out(
                scan_value(key@, old(line)@),
                old(self)@,
                final(self)@,
                final(line)@,
                result,
            ),
    {
        let value = scan_letters(line);
        proof {
            lemma_after_letters(old(line)@);
        }
        match line.peek() {
            Some(c) => Err(ParseError::InvalidCharacter { context: Context::Value, found: c }),
            None => {
                self.key_value.insert(key, value);
                Ok(())
            },
        }
    }
}

} // verus!
