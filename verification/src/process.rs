use vstd::prelude::*;

use crate::error::InterpreterError;
use crate::text::{chars_of, string_from, string_of};

verus! {

/// The words of a command, left to right, with the words still open: spaces outside
/// single quotes separate words, quotes are dropped, and empty words are left out.
pub open spec fn command_words(s: Seq<char>) -> (Seq<Seq<char>>, Seq<char>, bool)
    decreases s.len(),
{
    if s.len() == 0 {
        (seq![], seq![], false)
    } else {
        let (words, current, quoted) = command_words(s.drop_last());
        let c = s.last();
        if c == '\'' {
            (words, current, !quoted)
        } else if c == ' ' && !quoted {
            if current.len() > 0 {
                (words.push(current), seq![], quoted)
            } else {
                (words, current, quoted)
            }
        } else {
            (words, current.push(c), quoted)
        }
    }
}

/// The arguments of a command line: its words, the last one included.
pub open spec fn command_arguments(s: Seq<char>) -> Seq<Seq<char>> {
    let (words, current, _) = command_words(s);
    if current.len() > 0 {
        words.push(current)
    } else {
        words
    }
}

/// The texts of a sequence of strings.
pub open spec fn texts_of(v: Seq<String>) -> Seq<Seq<char>> {
    v.map_values(|s: String| s@)
}

/// Splits a command line into the program and its arguments (see
/// `command_arguments`).
pub fn split_command(command: &str) -> (r: Vec<String>)
    ensures
        texts_of(r@) == command_arguments(command@),
{
    let cs = chars_of(command);
    let mut args: Vec<String> = Vec::new();
    let mut current: Vec<char> = Vec::new();
    let mut in_quotes = false;
    let mut i: usize = 0;
    while i < cs.len()
        invariant
            cs@ == command@,
            i <= cs@.len(),
            command_words(cs@.take(i as int)) == (texts_of(args@), current@, in_quotes),
        decreases cs@.len() - i,
    {
        assert(cs@.take(i + 1).drop_last() =~= cs@.take(i as int));
        let c = cs[i];
        if c == '\'' {
            in_quotes = !in_quotes;
        } else if c == ' ' && !in_quotes {
            if current.len() > 0 {
                let ghost before = args@;
                let word = string_from(current.as_slice());
                args.push(word);
                assert(texts_of(args@) =~= texts_of(before).push(current@));
                current = Vec::new();
                assert(current@ =~= seq![]);
            }
        } else {
            current.push(c);
        }
        i += 1;
    }
    assert(cs@.take(i as int) =~= cs@);
    if current.len() > 0 {
        let ghost before = args@;
        let word = string_from(current.as_slice());
        args.push(word);
        assert(texts_of(args@) =~= texts_of(before).push(current@));
    }
    args
}

/// The pieces of a text between line ends: every `\n` ends a piece, and the text
/// after the last one is a piece too.
pub open spec fn split_pieces(s: Seq<char>) -> (Seq<Seq<char>>, Seq<char>)
    decreases s.len(),
{
    if s.len() == 0 {
        (seq![], seq![])
    } else {
        let (done, current) = split_pieces(s.drop_last());
        if s.last() == '\n' {
            (done.push(current), seq![])
        } else {
            (done, current.push(s.last()))
        }
    }
}

/// The lines that `input` is sent as: its pieces between `\n`, the last one
/// included even when it is empty.
pub open spec fn sent_lines(s: Seq<char>) -> Seq<Seq<char>> {
    split_pieces(s).0.push(split_pieces(s).1)
}

/// A line without a `\r` at its end.
pub open spec fn without_return(line: Seq<char>) -> Seq<char> {
    if line.len() > 0 && line.last() == '\r' {
        line.drop_last()
    } else {
        line
    }
}

/// The lines of a text as `str::lines` gives them: its pieces between `\n`, each
/// without a final `\r`, and the piece after the last `\n` only if it is not empty.
pub open spec fn text_lines(s: Seq<char>) -> Seq<Seq<char>> {
    let (done, current) = split_pieces(s);
    let all = if current.len() > 0 {
        done.push(current)
    } else {
        done
    };
    all.map_values(|l: Seq<char>| without_return(l))
}

/// The pieces of `s`, with the one that is still open.
fn pieces(s: &str) -> (r: (Vec<String>, Vec<char>))
    ensures
        split_pieces(s@) == (texts_of(r.0@), r.1@),
{
    let cs = chars_of(s);
    let mut done: Vec<String> = Vec::new();
    let mut current: Vec<char> = Vec::new();
    let mut i: usize = 0;
    while i < cs.len()
        invariant
            cs@ == s@,
            i <= cs@.len(),
            split_pieces(cs@.take(i as int)) == (texts_of(done@), current@),
        decreases cs@.len() - i,
    {
        assert(cs@.take(i + 1).drop_last() =~= cs@.take(i as int));
        if cs[i] == '\n' {
            let ghost before = done@;
            done.push(string_from(current.as_slice()));
            assert(texts_of(done@) =~= texts_of(before).push(current@));
            current = Vec::new();
            assert(current@ =~= seq![]);
        } else {
            current.push(cs[i]);
        }
        i += 1;
    }
    assert(cs@.take(i as int) =~= cs@);
    (done, current)
}

/// The lines that `input` is sent as (see `sent_lines`).
pub fn input_lines(input: &str) -> (r: Vec<String>)
    ensures
        texts_of(r@) == sent_lines(input@),
{
    let (mut done, current) = pieces(input);
    let ghost before = done@;
    done.push(string_from(current.as_slice()));
    assert(texts_of(done@) =~= texts_of(before).push(current@));
    done
}

/// The lines of `expected` (see `text_lines`).
pub fn expected_lines(expected: &str) -> (r: Vec<String>)
    ensures
        texts_of(r@) == text_lines(expected@),
{
    let (done, current) = pieces(expected);
    let mut all = done;
    if current.len() > 0 {
        all.push(string_from(current.as_slice()));
    }
    let ghost all_texts = texts_of(all@);
    assert(all_texts == {
        let (d, c) = split_pieces(expected@);
        if c.len() > 0 {
            d.push(c)
        } else {
            d
        }
    }) by {
        if current@.len() > 0 {
            assert(texts_of(all@) =~= texts_of(done@).push(current@));
        }
    }
    let mut r: Vec<String> = Vec::new();
    let mut i: usize = 0;
    while i < all.len()
        invariant
            i <= all@.len(),
            all_texts == texts_of(all@),
            texts_of(r@) == all_texts.take(i as int).map_values(|l: Seq<char>| without_return(l)),
        decreases all@.len() - i,
    {
        let cs = chars_of(all[i].as_str());
        let mut kept: Vec<char> = Vec::new();
        let end = if cs.len() > 0 && cs[cs.len() - 1] == '\r' {
            cs.len() - 1
        } else {
            cs.len()
        };
        let mut k: usize = 0;
        while k < end
            invariant
                k <= end <= cs@.len(),
                kept@ == cs@.take(k as int),
            decreases end - k,
        {
            kept.push(cs[k]);
            k += 1;
            assert(kept@ =~= cs@.take(k as int));
        }
        let ghost before = r@;
        let line = string_from(kept.as_slice());
        assert(line@ =~= without_return(all_texts[i as int]));
        r.push(line);
        assert(texts_of(r@) =~= texts_of(before).push(line@));
        assert(all_texts.take(i + 1).map_values(|l: Seq<char>| without_return(l)) =~= all_texts.take(
            i as int,
        ).map_values(|l: Seq<char>| without_return(l)).push(without_return(all_texts[i as int])));
        i += 1;
    }
    assert(all_texts.take(i as int) =~= all_texts);
    r
}

/// Whether a character is white space in the sense of the Unicode standard, as
/// `char::is_whitespace` decides it.
pub uninterp spec fn unicode_whitespace(c: char) -> bool;

/// Calls `char::is_whitespace`; the result is named `unicode_whitespace`. The
/// documentation lists the space, tab, line feed and carriage return among white
/// space.
#[verifier::external_body]
fn is_whitespace(c: char) -> (r: bool)
    ensures
        r == unicode_whitespace(c),
        (c == ' ' || c == '\t' || c == '\n' || c == '\r') ==> r,
{
    c.is_whitespace()
}

/// The text without the white space at its end.
pub open spec fn trimmed_end(s: Seq<char>) -> Seq<char>
    decreases s.len(),
{
    if s.len() > 0 && unicode_whitespace(s.last()) {
        trimmed_end(s.drop_last())
    } else {
        s
    }
}

/// The message of a line `got` that is not the line `expected`:
/// ``Expected: `expected`, got: `got` ``.
pub open spec fn mismatch_message(expected: Seq<char>, got: Seq<char>) -> Seq<char> {
    "Expected: `"@ + expected + "`, got: `"@ + got + "`"@
}

/// Compares a line that the program under test wrote with the line expected: they
/// must be equal once white space at the end of the written line is dropped.
pub fn compare_line(output: &String, expected: &String) -> (r: Result<(), InterpreterError>)
    ensures
        r is Ok <==> trimmed_end(output@) == expected@,
        r matches Err(e) ==> (e matches InterpreterError::TestFailed(m) && m@ == mismatch_message(
            expected@,
            trimmed_end(output@),
        )),
{
    proof {
        reveal_strlit("Expected: `");
        reveal_strlit("`, got: `");
        reveal_strlit("`");
    }
    let cs = chars_of(output.as_str());
    let mut end = cs.len();
    assert(cs@.take(end as int) =~= cs@);
    while end > 0 && is_whitespace(cs[end - 1])
        invariant
            end <= cs@.len(),
            trimmed_end(cs@.take(end as int)) == trimmed_end(cs@),
        decreases end,
    {
        assert(cs@.take(end as int).drop_last() =~= cs@.take(end - 1));
        end -= 1;
    }
    let mut kept: Vec<char> = Vec::new();
    let mut k: usize = 0;
    while k < end
        invariant
            k <= end <= cs@.len(),
            kept@ == cs@.take(k as int),
        decreases end - k,
    {
        kept.push(cs[k]);
        k += 1;
        assert(kept@ =~= cs@.take(k as int));
    }
    assert(trimmed_end(cs@.take(end as int)) == cs@.take(end as int));
    let trimmed = string_from(kept.as_slice());
    if trimmed.eq(expected) {
        Ok(())
    } else {
        let mut message = string_of("Expected: `");
        message.append(expected.as_str());
        message.append("`, got: `");
        message.append(trimmed.as_str());
        message.append("`");
        Err(InterpreterError::TestFailed(message))
    }
}

} // verus!
