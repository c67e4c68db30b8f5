use vstd::prelude::*;

use crate::cli::Args;
use crate::text::{chars_equal, chars_of, is_alphanumeric, string_from, string_of_char, unicode_alphanumeric};
use crate::token::{Token, TokenCollection, TokenKind, TokenType};
use crate::types::{type_named, Type};

verus! {

/// Why a text cannot be split into tokens.
#[derive(Debug, PartialEq, Eq)]
pub enum LexFailure {
    /// A character that no token starts with, or a second `.` in a number.
    UnexpectedCharacter(char),
    /// An integer literal greater than `i64::MAX`.
    IntegerOutOfRange,
}

/// A token of the specification: its kind, row and column.
pub type Lexeme = (TokenKind, int, int);

/// Whether `c` may continue an identifier.
pub open spec fn ident_char(c: char) -> bool {
    unicode_alphanumeric(c) || c == '_'
}

/// Whether `c` may start an identifier.
pub open spec fn ident_start(c: char) -> bool {
    ('a' <= c <= 'z') || ('A' <= c <= 'Z') || c == '_'
}

pub open spec fn is_digit(c: char) -> bool {
    '0' <= c <= '9'
}

/// The end of the identifier that starts at `q`.
pub open spec fn ident_end(cs: Seq<char>, q: int) -> int
    decreases cs.len() - q,
{
    if 0 <= q < cs.len() && ident_char(cs[q]) {
        ident_end(cs, q + 1)
    } else {
        q
    }
}

/// The end of the number that starts at `q`: digits and dots.
pub open spec fn number_end(cs: Seq<char>, q: int) -> int
    decreases cs.len() - q,
{
    if 0 <= q < cs.len() && (is_digit(cs[q]) || cs[q] == '.') {
        number_end(cs, q + 1)
    } else {
        q
    }
}

/// The position of the first newline at or after `q`, or the length of the text.
pub open spec fn line_end(cs: Seq<char>, q: int) -> int
    decreases cs.len() - q,
{
    if 0 <= q < cs.len() && cs[q] != '\n' {
        line_end(cs, q + 1)
    } else if q < 0 {
        q
    } else {
        q
    }
}

/// Scans the body of a quoted literal from `q` until the closing `delim`: the position
/// of the closing delimiter (or the length of the text), and the row and column after it.
pub open spec fn quoted_scan(cs: Seq<char>, q: int, delim: char, row: int, col: int) -> (
    int,
    int,
    int,
)
    decreases cs.len() - q,
{
    if q < 0 || q >= cs.len() {
        (cs.len() as int, row, col)
    } else {
        let row2 = if cs[q] == '\n' { row + 1 } else { row };
        let col2 = if cs[q] == '\n' { 1 } else { col };
        if cs[q] == delim {
            (q, row2, col2 + 1)
        } else {
            quoted_scan(cs, q + 1, delim, row2, col2 + 1)
        }
    }
}

/// The text with each two-character sequence `a b` replaced by `r`, left to right.
pub open spec fn replace_pair(s: Seq<char>, a: char, b: char, r: char) -> Seq<char>
    decreases s.len(),
{
    if s.len() < 2 {
        s
    } else if s[0] == a && s[1] == b {
        seq![r] + replace_pair(s.skip(2), a, b, r)
    } else {
        seq![s[0]] + replace_pair(s.skip(1), a, b, r)
    }
}

/// Whether the character `a` is directly followed by `b` somewhere in `s`.
pub open spec fn has_pair(s: Seq<char>, a: char, b: char) -> bool {
    exists|i: int| #![trigger s[i]] 0 <= i && i + 1 < s.len() && s[i] == a && s[i + 1] == b
}

/// The first character of a replacement is the first of the text, unless the text
/// starts with the pair replaced.
proof fn lemma_replace_first(s: Seq<char>, a: char, b: char, r: char)
    requires
        s.len() >= 1,
    ensures
        replace_pair(s, a, b, r).len() >= 1,
        replace_pair(s, a, b, r)[0] == if s.len() >= 2 && s[0] == a && s[1] == b {
            r
        } else {
            s[0]
        },
{
}

/// Replacing every pair `a b` by a character `r` that is neither `a` nor `b` leaves no
/// pair `a b`.
proof fn lemma_replace_removes(s: Seq<char>, a: char, b: char, r: char)
    requires
        r != a,
        r != b,
    ensures
        !has_pair(replace_pair(s, a, b, r), a, b),
    decreases s.len(),
{
    if s.len() >= 2 {
        let o = replace_pair(s, a, b, r);
        if s[0] == a && s[1] == b {
            let rest = s.skip(2);
            lemma_replace_removes(rest, a, b, r);
            assert forall|i: int| #![trigger o[i]] 0 <= i && i + 1 < o.len() implies !(o[i] == a && o[i + 1] == b) by {
                if i > 0 {
                    assert(o[i] == replace_pair(rest, a, b, r)[i - 1]);
                    assert(o[i + 1] == replace_pair(rest, a, b, r)[i]);
                }
            }
        } else {
            let rest = s.skip(1);
            lemma_replace_removes(rest, a, b, r);
            lemma_replace_first(rest, a, b, r);
            assert forall|i: int| #![trigger o[i]] 0 <= i && i + 1 < o.len() implies !(o[i] == a && o[i + 1] == b) by {
                if i > 0 {
                    assert(o[i] == replace_pair(rest, a, b, r)[i - 1]);
                    assert(o[i + 1] == replace_pair(rest, a, b, r)[i]);
                } else {
                    assert(o[1] == replace_pair(rest, a, b, r)[0]);
                }
            }
        }
    }
}

/// Replacing the pairs `a c` by a character `r` that is neither `a` nor `b`, where
/// `c` is not `b`, creates no pair `a b`.
proof fn lemma_replace_keeps_absent(s: Seq<char>, a: char, c: char, r: char, b: char)
    requires
        !has_pair(s, a, b),
        r != a,
        r != b,
        c != b,
    ensures
        !has_pair(replace_pair(s, a, c, r), a, b),
    decreases s.len(),
{
    if s.len() >= 2 {
        let o = replace_pair(s, a, c, r);
        if s[0] == a && s[1] == c {
            let rest = s.skip(2);
            assert(!has_pair(rest, a, b)) by {
                if has_pair(rest, a, b) {
                    let i = choose|i: int| #![trigger rest[i]] 0 <= i && i + 1 < rest.len() && rest[i] == a && rest[i + 1] == b;
                    assert(s[i + 2] == a && s[i + 3] == b);
                }
            }
            lemma_replace_keeps_absent(rest, a, c, r, b);
            assert forall|i: int| #![trigger o[i]] 0 <= i && i + 1 < o.len() implies !(o[i] == a && o[i + 1] == b) by {
                if i > 0 {
                    assert(o[i] == replace_pair(rest, a, c, r)[i - 1]);
                    assert(o[i + 1] == replace_pair(rest, a, c, r)[i]);
                }
            }
        } else {
            let rest = s.skip(1);
            assert(!has_pair(rest, a, b)) by {
                if has_pair(rest, a, b) {
                    let i = choose|i: int| #![trigger rest[i]] 0 <= i && i + 1 < rest.len() && rest[i] == a && rest[i + 1] == b;
                    assert(s[i + 1] == a && s[i + 2] == b);
                }
            }
            lemma_replace_keeps_absent(rest, a, c, r, b);
            lemma_replace_first(rest, a, c, r);
            assert(!(s[0] == a && s[1] == b));
            assert forall|i: int| #![trigger o[i]] 0 <= i && i + 1 < o.len() implies !(o[i] == a && o[i + 1] == b) by {
                if i > 0 {
                    assert(o[i] == replace_pair(rest, a, c, r)[i - 1]);
                    assert(o[i + 1] == replace_pair(rest, a, c, r)[i]);
                } else {
                    assert(o[1] == replace_pair(rest, a, c, r)[0]);
                }
            }
        }
    }
}

/// A text without the character `a` has no pair to replace.
proof fn lemma_replace_absent(s: Seq<char>, a: char, b: char, r: char)
    requires
        !s.contains(a),
    ensures
        replace_pair(s, a, b, r) == s,
    decreases s.len(),
{
    if s.len() >= 2 {
        assert(s[0] != a);
        let rest = s.skip(1);
        assert(!rest.contains(a)) by {
            if rest.contains(a) {
                let i = choose|i: int| 0 <= i < rest.len() && rest[i] == a;
                assert(s[i + 1] == a);
            }
        }
        lemma_replace_absent(rest, a, b, r);
        assert(seq![s[0]] + rest =~= s);
    }
}

/// The escapes of a string literal are resolved: no backslash is left directly
/// before an `n`, a `t` or an `r`.
pub proof fn law_escapes_resolved(s: Seq<char>)
    ensures
        !has_pair(unescape(s), '\\', 'n'),
        !has_pair(unescape(s), '\\', 't'),
        !has_pair(unescape(s), '\\', 'r'),
{
    let n = replace_pair(s, '\\', 'n', '\n');
    let t = replace_pair(n, '\\', 't', '\t');
    lemma_replace_removes(s, '\\', 'n', '\n');
    lemma_replace_keeps_absent(n, '\\', 't', '\t', 'n');
    lemma_replace_keeps_absent(t, '\\', 'r', '\r', 'n');
    lemma_replace_removes(n, '\\', 't', '\t');
    lemma_replace_keeps_absent(t, '\\', 'r', '\r', 't');
    lemma_replace_removes(t, '\\', 'r', '\r');
}

/// The escape `\n` becomes one newline character, and a text without a backslash
/// stays as it is.
pub proof fn law_newline_escape(s: Seq<char>)
    requires
        !s.contains('\\'),
    ensures
        unescape(s) == s,
        unescape(seq!['\\', 'n'] + s) == seq!['\n'] + s,
{
    lemma_replace_absent(s, '\\', 'n', '\n');
    lemma_replace_absent(s, '\\', 't', '\t');
    lemma_replace_absent(s, '\\', 'r', '\r');
    let e = seq!['\\', 'n'] + s;
    assert(e.skip(2) =~= s);
    let ns = seq!['\n'] + s;
    assert(!ns.contains('\\')) by {
        if ns.contains('\\') {
            let i = choose|i: int| 0 <= i < ns.len() && ns[i] == '\\';
            if i > 0 {
                assert(s[i - 1] == '\\');
            }
        }
    }
    lemma_replace_absent(ns, '\\', 't', '\t');
    lemma_replace_absent(ns, '\\', 'r', '\r');
}

/// The escapes `\t` and `\r` become one tab and one carriage return character.
pub proof fn law_tab_and_return_escapes(s: Seq<char>)
    requires
        !s.contains('\\'),
    ensures
        unescape(seq!['\\', 't'] + s) == seq!['\t'] + s,
        unescape(seq!['\\', 'r'] + s) == seq!['\r'] + s,
{
    let ts = seq!['t'] + s;
    let rs = seq!['r'] + s;
    let tab = seq!['\t'] + s;
    let cr = seq!['\r'] + s;
    assert forall|x: Seq<char>, c: char| x == seq![c] + s && c != '\\' implies !x.contains('\\') by {
        if x.contains('\\') {
            let i = choose|i: int| 0 <= i < x.len() && x[i] == '\\';
            if i > 0 {
                assert(s[i - 1] == '\\');
            }
        }
    }
    lemma_replace_absent(ts, '\\', 'n', '\n');
    lemma_replace_absent(rs, '\\', 'n', '\n');
    lemma_replace_absent(rs, '\\', 't', '\t');
    lemma_replace_absent(s, '\\', 't', '\t');
    lemma_replace_absent(tab, '\\', 'r', '\r');
    lemma_replace_absent(s, '\\', 'r', '\r');
    let et = seq!['\\', 't'] + s;
    let er = seq!['\\', 'r'] + s;
    assert(et.skip(1) =~= ts);
    assert(et.skip(2) =~= s);
    assert(er.skip(1) =~= rs);
    assert(er.skip(2) =~= s);
    assert(replace_pair(et, '\\', 'n', '\n') =~= et);
    assert(replace_pair(er, '\\', 'n', '\n') =~= er);
    assert(replace_pair(er, '\\', 't', '\t') =~= er);
    assert(replace_pair(et, '\\', 't', '\t') =~= tab);
    assert(replace_pair(er, '\\', 'r', '\r') =~= cr);
}

/// A name or a number ends no earlier than where it starts.
proof fn lemma_ends_grow(cs: Seq<char>, q: int)
    ensures
        ident_end(cs, q) >= q,
        number_end(cs, q) >= q,
    decreases cs.len() - q,
{
    if 0 <= q < cs.len() {
        lemma_ends_grow(cs, q + 1);
    }
}

/// A quoted literal's closing delimiter is at or after where its body starts.
proof fn lemma_quoted_grows(cs: Seq<char>, q: int, delim: char, row: int, col: int)
    requires
        q >= 0,
    ensures
        quoted_scan(cs, q, delim, row, col).0 >= q || quoted_scan(cs, q, delim, row, col).0 == cs.len(),
    decreases cs.len() - q,
{
    if q < cs.len() && cs[q] != delim {
        let row2 = if cs[q] == '\n' { row + 1 } else { row };
        let col2 = if cs[q] == '\n' { 1 } else { col };
        lemma_quoted_grows(cs, q + 1, delim, row2, col2 + 1);
    }
}

/// An operator, a name, a keyword, a built-in, a float or a regex literal is
/// lexed as exactly the source characters it covers (an operator, a float or a regex
/// at least one); all but a regex stay on their line and move the column by their
/// width. An
/// operator is as long as it can be: `<`, `>`, `=` and `!` stand alone only where no
/// `=` follows them.
pub proof fn law_token_text_is_its_source(cs: Seq<char>, p: int, row: int, col: int)
    requires
        0 <= p < cs.len(),
    ensures
        lex_step(cs, p, row, col) matches Ok((Some(k), e, r2, c2)) ==> match k {
            TokenKind::BinaryOperator(t) => t == cs.subrange(p, e) && p < e && r2 == row && c2 == col + (e - p)
                && (t.len() == 1 && (t[0] == '<' || t[0] == '>' || t[0] == '=' || t[0] == '!') ==> !next_is(
                cs,
                p,
                '=',
            )),
            TokenKind::UnaryOperator(t) => t == cs.subrange(p, e) && p < e && r2 == row && c2 == col + (e - p)
                && !next_is(cs, p, '='),
            TokenKind::Identifier(t) => t == cs.subrange(p, e) && r2 == row && c2 == col + (e - p),
            TokenKind::Keyword(t) => t == cs.subrange(p, e) && r2 == row && c2 == col + (e - p),
            TokenKind::BuiltIn(t) => t == cs.subrange(p, e) && r2 == row && c2 == col + (e - p),
            TokenKind::FloatLiteral(t) => t == cs.subrange(p, e) && p < e && r2 == row && c2 == col + (e - p),
            TokenKind::RegexLiteral(t) => t == cs.subrange(p, e) && p < e,
            _ => p < e,
        },
{
    let c = cs[p];
    if single_char_kind(c) is Some {
        assert(cs.subrange(p, p + 1) =~= seq![c]);
    } else if c == '/' || c == '<' || c == '>' || c == '=' || c == '!' || c == '&' || c == '|' {
        assert(cs.subrange(p, p + 1) =~= seq![c]);
        if p + 1 < cs.len() {
            assert(cs.subrange(p, p + 2) =~= seq![c, cs[p + 1]]);
        }
    } else if ident_start(c) {
        lemma_ends_grow(cs, p + 1);
    } else if c == '"' || c == '`' {
        lemma_quoted_grows(cs, p + 1, c, row, col + 1);
    } else if is_digit(c) {
        lemma_ends_grow(cs, p + 1);
    }
}

/// The text of a lexed string literal has its escapes resolved: no backslash is left
/// directly before an `n`, a `t` or an `r`.
pub proof fn law_lexed_string_escapes(cs: Seq<char>, p: int, row: int, col: int)
    requires
        0 <= p < cs.len(),
    ensures
        lex_step(cs, p, row, col) matches Ok((Some(TokenKind::StringLiteral(v)), _, _, _)) ==> !has_pair(
            v,
            '\\',
            'n',
        ) && !has_pair(v, '\\', 't') && !has_pair(v, '\\', 'r'),
{
    if cs[p] == '"' {
        let (stop, row2, col2) = quoted_scan(cs, p + 1, '"', row, col + 1);
        let e = if stop < cs.len() { stop + 1 } else { cs.len() as int };
        law_escapes_resolved(cs.subrange(p, e));
    }
}

/// Scanning a quoted body that holds no delimiter and no newline before the
/// delimiter at `q` stops there, on the same row, one column per character.
proof fn lemma_quoted_plain(cs: Seq<char>, i: int, q: int, delim: char, row: int, c: int)
    requires
        0 <= i <= q < cs.len(),
        cs[q] == delim,
        delim != '\n',
        forall|k: int| i <= k < q ==> cs[k] != delim && cs[k] != '\n',
    ensures
        quoted_scan(cs, i, delim, row, c) == (q, row, c + (q - i) + 1),
    decreases q - i,
{
    if i < q {
        lemma_quoted_plain(cs, i + 1, q, delim, row, c + 1);
    }
}

/// A string literal whose body has no backslash and no newline is lexed as its
/// source text, quotes included, up to the first closing quote; the lexer goes on
/// after that quote, on the same row, one column further per character.
pub proof fn law_plain_string_literal(cs: Seq<char>, p: int, q: int, row: int, col: int)
    requires
        0 <= p < q < cs.len(),
        cs[p] == '"',
        cs[q] == '"',
        forall|k: int| p < k < q ==> cs[k] != '"' && cs[k] != '\\' && cs[k] != '\n',
    ensures
        lex_step(cs, p, row, col) == Ok::<(Option<TokenKind>, int, int, int), LexFailure>(
            (Some(TokenKind::StringLiteral(cs.subrange(p, q + 1))), q + 1, row, col + (q + 1 - p)),
        ),
{
    lemma_quoted_plain(cs, p + 1, q, '"', row, col + 1);
    let text = cs.subrange(p, q + 1);
    assert(!text.contains('\\')) by {
        if text.contains('\\') {
            let k = choose|k: int| 0 <= k < text.len() && text[k] == '\\';
            assert(cs[p + k] == '\\');
        }
    }
    lemma_replace_absent(text, '\\', 'n', '\n');
    lemma_replace_absent(text, '\\', 't', '\t');
    lemma_replace_absent(text, '\\', 'r', '\r');
    assert(single_char_kind('"') is None);
}

/// A number that starts at `k` in a run of digits ending at `end` ends there.
proof fn lemma_number_end_digits(cs: Seq<char>, k: int, end: int)
    requires
        0 <= k <= end <= cs.len(),
        forall|j: int| k <= j < end ==> is_digit(#[trigger] cs[j]),
        end == cs.len() || (!is_digit(cs[end]) && cs[end] != '.'),
    ensures
        number_end(cs, k) == end,
    decreases end - k,
{
    if k < end {
        lemma_number_end_digits(cs, k + 1, end);
    }
}

/// A text of digits holds no dot.
proof fn lemma_digits_no_dot(s: Seq<char>)
    requires
        forall|j: int| 0 <= j < s.len() ==> is_digit(#[trigger] s[j]),
    ensures
        dot_count(s) == 0,
    decreases s.len(),
{
    if s.len() > 0 {
        lemma_digits_no_dot(s.drop_last());
    }
}

/// A regex literal whose body has no newline is lexed as its source text, backquotes
/// included and backslashes kept, up to the first closing backquote; the lexer goes
/// on after it, on the same row, one column further per character.
pub proof fn law_regex_literal(cs: Seq<char>, p: int, q: int, row: int, col: int)
    requires
        0 <= p < q < cs.len(),
        cs[p] == '`',
        cs[q] == '`',
        forall|k: int| p < k < q ==> cs[k] != '`' && cs[k] != '\n',
    ensures
        lex_step(cs, p, row, col) == Ok::<(Option<TokenKind>, int, int, int), LexFailure>(
            (Some(TokenKind::RegexLiteral(cs.subrange(p, q + 1))), q + 1, row, col + (q + 1 - p)),
        ),
{
    lemma_quoted_plain(cs, p + 1, q, '`', row, col + 1);
    assert(single_char_kind('`') is None);
}

/// A run of decimal digits `digits` worth at most `i64::MAX`, followed by neither a
/// digit nor a dot, is lexed as the integer literal of its value; the lexer goes on
/// after the last digit, one column further per digit.
pub proof fn law_integer_literal(digits: Seq<char>, rest: Seq<char>, row: int, col: int)
    requires
        digits.len() > 0,
        forall|j: int| 0 <= j < digits.len() ==> is_digit(#[trigger] digits[j]),
        digits_value(digits) <= i64::MAX,
        rest.len() == 0 || (!is_digit(rest[0]) && rest[0] != '.'),
    ensures
        lex_step(digits + rest, 0, row, col) == Ok::<(Option<TokenKind>, int, int, int), LexFailure>(
            (
                Some(TokenKind::IntegerLiteral(digits_value(digits) as i64)),
                digits.len() as int,
                row,
                col + digits.len(),
            ),
        ),
{
    let cs = digits + rest;
    let end = digits.len() as int;
    assert forall|j: int| 0 <= j < end implies is_digit(#[trigger] cs[j]) by {
        assert(cs[j] == digits[j]);
    }
    if rest.len() > 0 {
        assert(cs[end] == rest[0]);
    }
    lemma_number_end_digits(cs, 0, end);
    assert(cs.subrange(0, end) =~= digits);
    lemma_digits_no_dot(digits);
    assert(is_digit(cs[0]));
}

/// The text of a string literal with its escapes `\n`, `\t` and `\r` resolved.
pub open spec fn unescape(s: Seq<char>) -> Seq<char> {
    replace_pair(
        replace_pair(replace_pair(s, '\\', 'n', '\n'), '\\', 't', '\t'),
        '\\',
        'r',
        '\r',
    )
}

/// Number of dots in a text.
pub open spec fn dot_count(s: Seq<char>) -> nat
    decreases s.len(),
{
    if s.len() == 0 {
        0
    } else {
        (if s.last() == '.' { 1nat } else { 0nat }) + dot_count(s.drop_last())
    }
}

/// The value of a text of decimal digits.
pub open spec fn digits_value(s: Seq<char>) -> int
    decreases s.len(),
{
    if s.len() == 0 {
        0
    } else {
        10 * digits_value(s.drop_last()) + (s.last() as int - '0' as int)
    }
}

/// Whether a text is one of the keywords of the language.
pub open spec fn is_keyword(w: Seq<char>) -> bool {
    ||| w == seq!['f', 'o', 'r']
    ||| w == seq!['l', 'e', 't']
    ||| w == seq!['c', 'o', 'n', 's', 't']
    ||| w == seq!['i', 'f']
    ||| w == seq!['e', 'l', 's', 'e']
    ||| w == seq!['f', 'n']
}

/// Whether a text names one of the built-in functions.
pub open spec fn is_builtin(w: Seq<char>) -> bool {
    ||| w == seq!['i', 'n', 'p', 'u', 't']
    ||| w == seq!['o', 'u', 't', 'p', 'u', 't']
    ||| w == seq!['p', 'r', 'i', 'n', 't']
    ||| w == seq!['p', 'r', 'i', 'n', 't', 'l', 'n']
}

/// The kind of token a word is.
pub open spec fn word_kind(w: Seq<char>) -> TokenKind {
    if is_keyword(w) {
        TokenKind::Keyword(w)
    } else if type_named(w) is Some {
        TokenKind::Type(type_named(w)->0)
    } else if w == seq!['t', 'r', 'u', 'e'] {
        TokenKind::BooleanLiteral(true)
    } else if w == seq!['f', 'a', 'l', 's', 'e'] {
        TokenKind::BooleanLiteral(false)
    } else if w == seq!['i', 'n'] {
        TokenKind::IterableAssignmentOperator
    } else if w == seq!['a', 's'] {
        TokenKind::TypeCast
    } else if is_builtin(w) {
        TokenKind::BuiltIn(w)
    } else {
        TokenKind::Identifier(w)
    }
}

/// The token of one character that stands alone, if `c` is one.
pub open spec fn single_char_kind(c: char) -> Option<TokenKind> {
    if c == '{' {
        Some(TokenKind::OpenBlock)
    } else if c == '}' {
        Some(TokenKind::CloseBlock)
    } else if c == '(' {
        Some(TokenKind::OpenParen)
    } else if c == ')' {
        Some(TokenKind::CloseParen)
    } else if c == ';' {
        Some(TokenKind::Semicolon)
    } else if c == ',' {
        Some(TokenKind::Comma)
    } else if c == ':' {
        Some(TokenKind::Colon)
    } else if c == '+' || c == '-' || c == '*' || c == '%' {
        Some(TokenKind::BinaryOperator(seq![c]))
    } else {
        None
    }
}

/// Whether the character after position `p` is `c`.
pub open spec fn next_is(cs: Seq<char>, p: int, c: char) -> bool {
    p + 1 < cs.len() && cs[p + 1] == c
}

/// One step of the lexer at position `p`, row `row` and column `col`: the token it
/// makes there, if any, and the position, row and column after it.
pub open spec fn lex_step(cs: Seq<char>, p: int, row: int, col: int) -> Result<
    (Option<TokenKind>, int, int, int),
    LexFailure,
> {
    let c = cs[p];
    let len = cs.len() as int;
    if single_char_kind(c) is Some {
        Ok((single_char_kind(c), p + 1, row, col + 1))
    } else if c == '/' {
        if next_is(cs, p, '/') {
            let e = line_end(cs, p + 1);
            Ok((None, if e < len { e + 1 } else { len }, row + 1, 1))
        } else {
            Ok((Some(TokenKind::BinaryOperator(seq!['/'])), p + 1, row, col + 1))
        }
    } else if c == '<' {
        if next_is(cs, p, '=') {
            Ok((Some(TokenKind::BinaryOperator(seq!['<', '='])), p + 2, row, col + 2))
        } else {
            Ok((Some(TokenKind::BinaryOperator(seq!['<'])), p + 1, row, col + 1))
        }
    } else if c == '>' {
        if next_is(cs, p, '=') {
            Ok((Some(TokenKind::BinaryOperator(seq!['>', '='])), p + 2, row, col + 2))
        } else {
            Ok((Some(TokenKind::BinaryOperator(seq!['>'])), p + 1, row, col + 1))
        }
    } else if c == '=' {
        if next_is(cs, p, '=') {
            Ok((Some(TokenKind::BinaryOperator(seq!['=', '='])), p + 2, row, col + 2))
        } else {
            Ok((Some(TokenKind::AssignmentOperator), p + 1, row, col + 1))
        }
    } else if c == '!' {
        if next_is(cs, p, '=') {
            Ok((Some(TokenKind::BinaryOperator(seq!['!', '='])), p + 2, row, col + 2))
        } else {
            Ok((Some(TokenKind::UnaryOperator(seq!['!'])), p + 1, row, col + 1))
        }
    } else if c == '&' {
        if next_is(cs, p, '&') {
            Ok((Some(TokenKind::BinaryOperator(seq!['&', '&'])), p + 2, row, col + 2))
        } else {
            Err(LexFailure::UnexpectedCharacter('&'))
        }
    } else if c == '|' {
        if next_is(cs, p, '|') {
            Ok((Some(TokenKind::BinaryOperator(seq!['|', '|'])), p + 2, row, col + 2))
        } else {
            Err(LexFailure::UnexpectedCharacter('|'))
        }
    } else if ident_start(c) {
        let e = ident_end(cs, p);
        Ok((Some(word_kind(cs.subrange(p, e))), e, row, col + (e - p)))
    } else if c == '"' || c == '`' {
        let (stop, row2, col2) = quoted_scan(cs, p + 1, c, row, col + 1);
        let e = if stop < len { stop + 1 } else { len };
        let text = cs.subrange(p, e);
        let kind = if c == '"' {
            TokenKind::StringLiteral(unescape(text))
        } else {
            TokenKind::RegexLiteral(text)
        };
        Ok((Some(kind), e, row2, col2))
    } else if is_digit(c) {
        let e = number_end(cs, p);
        let text = cs.subrange(p, e);
        if dot_count(text) >= 2 {
            Err(LexFailure::UnexpectedCharacter('.'))
        } else if dot_count(text) == 1 {
            Ok((Some(TokenKind::FloatLiteral(text)), e, row, col + (e - p)))
        } else if digits_value(text) <= i64::MAX {
            Ok(
                (
                    Some(TokenKind::IntegerLiteral(digits_value(text) as i64)),
                    e,
                    row,
                    col + (e - p),
                ),
            )
        } else {
            Err(LexFailure::IntegerOutOfRange)
        }
    } else if c == '\n' {
        Ok((None, p + 1, row + 1, 1))
    } else if c == ' ' || c == '\t' {
        Ok((None, p + 1, row, col + 1))
    } else {
        Err(LexFailure::UnexpectedCharacter(c))
    }
}

/// The tokens of the text from position `p` on, starting at row `row` and column
/// `col`, or why the text cannot be split into tokens.
pub open spec fn lex_from(cs: Seq<char>, p: int, row: int, col: int) -> Result<
    Seq<Lexeme>,
    LexFailure,
>
    decreases cs.len() - p,
{
    if p < 0 || p >= cs.len() {
        Ok(seq![])
    } else {
        match lex_step(cs, p, row, col) {
            Err(e) => Err(e),
            Ok((t, np, nrow, ncol)) => if np <= p || np > cs.len() {
                Ok(seq![])
            } else {
                match lex_from(cs, np, nrow, ncol) {
                    Err(e) => Err(e),
                    Ok(rest) => Ok(
                        match t {
                            Some(k) => seq![(k, row, col)] + rest,
                            None => rest,
                        },
                    ),
                }
            },
        }
    }
}

/// The text with one carriage return removed from its end, if it ends with one.
pub open spec fn strip_cr(s: Seq<char>) -> Seq<char> {
    if s.len() > 0 && s.last() == '\r' {
        s.drop_last()
    } else {
        s
    }
}

/// The lines of the text from `q` on, as `str::lines` splits them.
pub open spec fn lines_from(cs: Seq<char>, q: int) -> Seq<Seq<char>>
    decreases cs.len() - q,
{
    if q < 0 || q >= cs.len() {
        seq![]
    } else {
        let e = line_end(cs, q);
        if e >= cs.len() {
            seq![cs.subrange(q, cs.len() as int)]
        } else if e < q {
            seq![]
        } else {
            seq![strip_cr(cs.subrange(q, e))] + lines_from(cs, e + 1)
        }
    }
}

/// The text of line `row` (counted from 1), or nothing if there is no such line.
pub open spec fn line_at(lines: Seq<Seq<char>>, row: int) -> Seq<char> {
    if 1 <= row <= lines.len() {
        lines[row - 1]
    } else {
        seq![]
    }
}

/// The token kinds, rows and columns of a sequence of tokens.
pub open spec fn lexemes_of(tokens: Seq<Token>) -> Seq<Lexeme> {
    tokens.map_values(|t: Token| (t.token_type@, t.row as int, t.column as int))
}

/// Prepends known tokens to the outcome of lexing the rest of a text.
pub open spec fn prepend(done: Seq<Lexeme>, rest: Result<Seq<Lexeme>, LexFailure>) -> Result<
    Seq<Lexeme>,
    LexFailure,
> {
    match rest {
        Ok(s) => Ok(done + s),
        Err(e) => Err(e),
    }
}

/// Token `i` stands in the source file whose lines are `lines` and whose name is
/// `file`, and records the token before it.
pub open spec fn placed_at(tokens: Seq<Token>, i: int, file: Seq<char>, lines: Seq<Seq<char>>) -> bool {
    &&& tokens[i].file@ == file
    &&& tokens[i].line@ == line_at(lines, tokens[i].row as int)
    &&& if i == 0 {
        tokens[i].last_token is None
    } else {
        &&& tokens[i].last_token is Some
        &&& tokens[i].last_token->0.token_type@ == tokens[i - 1].token_type@
        &&& tokens[i].last_token->0.file@ == tokens[i - 1].file@
        &&& tokens[i].last_token->0.row == tokens[i - 1].row
        &&& tokens[i].last_token->0.column == tokens[i - 1].column
        &&& tokens[i].last_token->0.line@ == tokens[i - 1].line@
        &&& tokens[i].last_token->0.last_token is None
    }
}

/// Every token stands in the source file and records the token before it.
pub open spec fn tokens_placed(tokens: Seq<Token>, file: Seq<char>, lines: Seq<Seq<char>>) -> bool {
    forall|i: int| 0 <= i < tokens.len() ==> #[trigger] placed_at(tokens, i, file, lines)
}

proof fn lemma_placed_push(ts: Seq<Token>, t: Token, file: Seq<char>, lines: Seq<Seq<char>>)
    requires
        tokens_placed(ts, file, lines),
        placed_at(ts.push(t), ts.len() as int, file, lines),
    ensures
        tokens_placed(ts.push(t), file, lines),
{
    let ns = ts.push(t);
    assert forall|i: int| 0 <= i < ns.len() implies #[trigger] placed_at(ns, i, file, lines) by {
        if i < ts.len() {
            assert(placed_at(ts, i, file, lines));
            assert(ns[i] == ts[i]);
            if i > 0 {
                assert(ns[i - 1] == ts[i - 1]);
            }
        }
    }
}

/// Splits source text into tokens.
pub struct Lexer {
    lines: Vec<String>,
    contents: Vec<char>,
    position: usize,
    file: String,
    tokens: Vec<Token>,
    row: usize,
    column: usize,
}

/// The largest source text the lexer takes: rows and columns must fit in a `u32`.
pub open spec fn max_source_len() -> int {
    0x7fff_0000
}

impl Lexer {
    /// The characters of the source.
    pub closed spec fn chars(&self) -> Seq<char> {
        self.contents@
    }

    /// The position of the next character to read.
    pub closed spec fn pos(&self) -> int {
        self.position as int
    }

    pub closed spec fn cur_row(&self) -> int {
        self.row as int
    }

    pub closed spec fn cur_column(&self) -> int {
        self.column as int
    }

    /// The tokens made so far.
    pub closed spec fn made(&self) -> Seq<Token> {
        self.tokens@
    }

    /// The name of the source file.
    pub closed spec fn file_name(&self) -> Seq<char> {
        self.file@
    }

    /// The lines of the source.
    pub closed spec fn source_lines(&self) -> Seq<Seq<char>> {
        self.lines@.map_values(|l: String| l@)
    }

    /// The lexer's state is consistent.
    pub closed spec fn wf(&self) -> bool {
        &&& self.contents@.len() <= max_source_len()
        &&& self.position <= self.contents@.len()
        &&& 1 <= self.row <= self.position + 1
        &&& 1 <= self.column <= self.position + 4
        &&& self.position < self.contents@.len() ==> self.column <= self.position + 1
        &&& self.source_lines() == lines_from(self.contents@, 0)
        &&& tokens_placed(self.tokens@, self.file@, self.source_lines())
    }

    /// A lexer at the start of `contents`, for the file named in `args`.
    pub fn new(contents: &str, args: Args) -> (r: Lexer)
        requires
            contents@.len() <= max_source_len(),
        ensures
            r.wf(),
            r.chars() == contents@,
            r.pos() == 0,
            r.cur_row() == 1,
            r.cur_column() == 1,
            r.made() == Seq::<Token>::empty(),
            r.file_name() == args.file@,
            r.source_lines() == lines_from(contents@, 0),
    {
        let contents = chars_of(contents);
        let lines = split_lines(&contents);
        Lexer {
            lines,
            contents,
            position: 0,
            file: args.file,
            tokens: Vec::new(),
            row: 1,
            column: 1,
        }
    }
}


/// The outcome of one lexer step, stated on the lexer before it and after it.
pub open spec fn stepped(old: Lexer, new: Lexer, r: Result<(), LexFailure>) -> bool {
    match lex_step(old.chars(), old.pos(), old.cur_row(), old.cur_column()) {
        Err(e) => r == Err::<(), LexFailure>(e),
        Ok((t, np, nrow, ncol)) => {
            &&& r is Ok
            &&& new.pos() == np
            &&& new.cur_row() == nrow
            &&& new.cur_column() == ncol
            &&& match t {
                Some(k) => {
                    &&& new.made().len() == old.made().len() + 1
                    &&& new.made().take(old.made().len() as int) == old.made()
                    &&& new.made().last().token_type@ == k
                    &&& new.made().last().row == old.cur_row()
                    &&& new.made().last().column == old.cur_column()
                },
                None => new.made() == old.made(),
            }
        },
    }
}

impl Lexer {
    /// Whether `t` is a token made at the lexer's current place: its position, file,
    /// line and the token before it.
    pub closed spec fn fresh(&self, t: Token) -> bool {
        &&& t.row == self.row
        &&& t.column == self.column
        &&& t.file@ == self.file@
        &&& t.line@ == line_at(self.source_lines(), self.row as int)
        &&& if self.tokens@.len() == 0 {
            t.last_token is None
        } else {
            let p = self.tokens@.last();
            &&& t.last_token is Some
            &&& t.last_token->0.token_type@ == p.token_type@
            &&& t.last_token->0.file@ == p.file@
            &&& t.last_token->0.row == p.row
            &&& t.last_token->0.column == p.column
            &&& t.last_token->0.line@ == p.line@
            &&& t.last_token->0.last_token is None
        }
    }

    /// The text of the line the lexer is on.
    fn get_line(&self) -> (r: String)
        ensures
            r@ == line_at(self.source_lines(), self.row as int),
    {
        if 1 <= self.row && self.row - 1 < self.lines.len() {
            self.lines[self.row - 1].clone()
        } else {
            String::new()
        }
    }

    /// A token of type `token_type` at the lexer's current place.
    fn make_token(&self, token_type: TokenType) -> (r: Token)
        requires
            self.wf(),
        ensures
            r.token_type@ == token_type@,
            self.fresh(r),
    {
        let last_token = if self.tokens.len() > 0 {
            Some(Box::new(self.tokens[self.tokens.len() - 1].detached()))
        } else {
            None
        };
        Token {
            token_type,
            file: self.file.clone(),
            row: self.row as u32,
            column: self.column as u32,
            line: self.get_line(),
            last_token,
        }
    }

    /// Adds a token made at the current place, then moves `width` characters and
    /// `columns` columns on.
    fn push_token(&mut self, token_type: TokenType, width: usize, columns: usize)
        requires
            old(self).wf(),
            old(self).position + width <= old(self).contents@.len(),
            width >= 1,
            old(self).column + columns <= old(self).position + width + 4,
            old(self).position + width < old(self).contents@.len() ==> old(self).column + columns
                <= old(self).position + width + 1,
        ensures
            final(self).wf(),
            final(self).chars() == old(self).chars(),
            final(self).file_name() == old(self).file_name(),
            final(self).source_lines() == old(self).source_lines(),
            final(self).pos() == old(self).pos() + width,
            final(self).cur_row() == old(self).cur_row(),
            final(self).cur_column() == old(self).cur_column() + columns,
            final(self).made().len() == old(self).made().len() + 1,
            final(self).made().take(old(self).made().len() as int) == old(self).made(),
            final(self).made().last().token_type@ == token_type@,
            final(self).made().last().row == old(self).cur_row(),
            final(self).made().last().column == old(self).cur_column(),
    {
        let token = self.make_token(token_type);
        let ghost pushed = token;
        self.tokens.push(token);
        self.position = self.position + width;
        self.column = self.column + columns;
        proof {
            let ts = self.tokens@;
            assert(ts.take(old(self).tokens@.len() as int) =~= old(self).tokens@);
            assert(ts =~= old(self).tokens@.push(pushed));
            assert(placed_at(ts, old(self).tokens@.len() as int, self.file@, self.source_lines()));
            lemma_placed_push(old(self).tokens@, pushed, self.file@, self.source_lines());
        }
    }

    /// Moves `width` characters on without making a token.
    fn skip_chars(&mut self, width: usize, new_row: usize, new_column: usize)
        requires
            old(self).wf(),
            old(self).position + width <= old(self).contents@.len(),
            width >= 1,
            1 <= new_row <= old(self).position + width + 1,
            1 <= new_column <= old(self).position + width + 4,
            old(self).position + width < old(self).contents@.len() ==> new_column
                <= old(self).position + width + 1,
        ensures
            final(self).wf(),
            final(self).chars() == old(self).chars(),
            final(self).file_name() == old(self).file_name(),
            final(self).source_lines() == old(self).source_lines(),
            final(self).pos() == old(self).pos() + width,
            final(self).cur_row() == new_row,
            final(self).cur_column() == new_column,
            final(self).made() == old(self).made(),
    {
        self.position = self.position + width;
        self.row = new_row;
        self.column = new_column;
    }
}


/// Whether the characters `cs` spell the word `w`, with `w`'s characters known.
fn word_is(cs: &Vec<char>, w: &str) -> (r: bool)
    ensures
        r == (cs@ == w@),
{
    chars_equal(cs, w)
}

/// The kind of token the word `value` is.
pub fn identifier_kind(value: &Vec<char>) -> (r: TokenType)
    ensures
        r@ == word_kind(value@),
{
    proof {
        reveal_strlit("for");
        reveal_strlit("let");
        reveal_strlit("const");
        reveal_strlit("if");
        reveal_strlit("else");
        reveal_strlit("fn");
        reveal_strlit("string");
        reveal_strlit("regex");
        reveal_strlit("int");
        reveal_strlit("float");
        reveal_strlit("bool");
        reveal_strlit("none");
        reveal_strlit("true");
        reveal_strlit("false");
        reveal_strlit("in");
        reveal_strlit("as");
        reveal_strlit("input");
        reveal_strlit("output");
        reveal_strlit("print");
        reveal_strlit("println");
        assert("for"@ =~= seq!['f', 'o', 'r']);
        assert("let"@ =~= seq!['l', 'e', 't']);
        assert("const"@ =~= seq!['c', 'o', 'n', 's', 't']);
        assert("if"@ =~= seq!['i', 'f']);
        assert("else"@ =~= seq!['e', 'l', 's', 'e']);
        assert("fn"@ =~= seq!['f', 'n']);
        assert("string"@ =~= seq!['s', 't', 'r', 'i', 'n', 'g']);
        assert("regex"@ =~= seq!['r', 'e', 'g', 'e', 'x']);
        assert("int"@ =~= seq!['i', 'n', 't']);
        assert("float"@ =~= seq!['f', 'l', 'o', 'a', 't']);
        assert("bool"@ =~= seq!['b', 'o', 'o', 'l']);
        assert("none"@ =~= seq!['n', 'o', 'n', 'e']);
        assert("true"@ =~= seq!['t', 'r', 'u', 'e']);
        assert("false"@ =~= seq!['f', 'a', 'l', 's', 'e']);
        assert("in"@ =~= seq!['i', 'n']);
        assert("as"@ =~= seq!['a', 's']);
        assert("input"@ =~= seq!['i', 'n', 'p', 'u', 't']);
        assert("output"@ =~= seq!['o', 'u', 't', 'p', 'u', 't']);
        assert("print"@ =~= seq!['p', 'r', 'i', 'n', 't']);
        assert("println"@ =~= seq!['p', 'r', 'i', 'n', 't', 'l', 'n']);
    }
    if word_is(value, "for") || word_is(value, "let") || word_is(value, "const") || word_is(
        value,
        "if",
    ) || word_is(value, "else") || word_is(value, "fn") {
        TokenType::Keyword { value: string_from(value.as_slice()) }
    } else if word_is(value, "string") {
        TokenType::Type { value: Type::String }
    } else if word_is(value, "regex") {
        TokenType::Type { value: Type::Regex }
    } else if word_is(value, "int") {
        TokenType::Type { value: Type::Int }
    } else if word_is(value, "float") {
        TokenType::Type { value: Type::Float }
    } else if word_is(value, "bool") {
        TokenType::Type { value: Type::Bool }
    } else if word_is(value, "none") {
        TokenType::Type { value: Type::Nothing }
    } else if word_is(value, "true") {
        TokenType::BooleanLiteral { value: true }
    } else if word_is(value, "false") {
        TokenType::BooleanLiteral { value: false }
    } else if word_is(value, "in") {
        TokenType::IterableAssignmentOperator
    } else if word_is(value, "as") {
        TokenType::TypeCast
    } else if word_is(value, "input") || word_is(value, "output") || word_is(value, "print")
        || word_is(value, "println") {
        TokenType::BuiltIn { value: string_from(value.as_slice()) }
    } else {
        TokenType::Identifier { value: string_from(value.as_slice()) }
    }
}

/// The text `s` with each two-character sequence `a b` replaced by `r`, left to right.
fn replace_pair_of(s: &Vec<char>, a: char, b: char, r: char) -> (out: Vec<char>)
    ensures
        out@ == replace_pair(s@, a, b, r),
{
    let mut out: Vec<char> = Vec::new();
    let mut i: usize = 0;
    assert(s@.skip(0) =~= s@);
    assert(out@ + replace_pair(s@, a, b, r) =~= replace_pair(s@, a, b, r));
    while i < s.len()
        invariant
            i <= s@.len(),
            out@ + replace_pair(s@.skip(i as int), a, b, r) == replace_pair(s@, a, b, r),
        decreases s@.len() - i,
    {
        let ghost rest = s@.skip(i as int);
        if i + 1 < s.len() && s[i] == a && s[i + 1] == b {
            assert(rest.skip(2) =~= s@.skip(i + 2));
            out.push(r);
            i = i + 2;
        } else {
            if i + 1 < s.len() {
                assert(rest.skip(1) =~= s@.skip(i + 1));
            } else {
                assert(rest =~= seq![s@[i as int]]);
                assert(s@.skip(i + 1) =~= Seq::<char>::empty());
            }
            out.push(s[i]);
            i = i + 1;
        }
    }
    assert(s@.skip(i as int) =~= Seq::<char>::empty());
    assert(out@ =~= out@ + replace_pair(s@.skip(i as int), a, b, r));
    out
}

pub proof fn lemma_digits_value_nonneg(s: Seq<char>)
    requires
        forall|i: int| 0 <= i < s.len() ==> is_digit(#[trigger] s[i]),
    ensures
        digits_value(s) >= 0,
    decreases s.len(),
{
    if s.len() > 0 {
        lemma_digits_value_nonneg(s.drop_last());
    }
}

pub proof fn lemma_digits_value_grows(s: Seq<char>, i: int)
    requires
        forall|j: int| 0 <= j < s.len() ==> is_digit(#[trigger] s[j]),
        0 <= i <= s.len(),
    ensures
        digits_value(s) >= digits_value(s.take(i)),
    decreases s.len(),
{
    if i < s.len() {
        assert(s.drop_last().take(i) =~= s.take(i));
        lemma_digits_value_grows(s.drop_last(), i);
        lemma_digits_value_nonneg(s.drop_last());
    } else {
        assert(s.take(i) =~= s);
    }
}

impl Lexer {
    /// Adds `t`, which was made at the place of a lexer with the same tokens.
    fn push_made(&mut self, t: Token)
        requires
            old(self).wf(),
            placed_at(
                old(self).tokens@.push(t),
                old(self).tokens@.len() as int,
                old(self).file@,
                old(self).source_lines(),
            ),
        ensures
            final(self).wf(),
            final(self).chars() == old(self).chars(),
            final(self).file_name() == old(self).file_name(),
            final(self).source_lines() == old(self).source_lines(),
            final(self).pos() == old(self).pos(),
            final(self).cur_row() == old(self).cur_row(),
            final(self).cur_column() == old(self).cur_column(),
            final(self).made() == old(self).made().push(t),
    {
        proof {
            lemma_placed_push(self.tokens@, t, self.file@, self.source_lines());
        }
        self.tokens.push(t);
    }

    /// Reads an identifier, keyword, type name, boolean or built-in name.
    pub fn tokenize_identifier(&mut self) -> (r: Token)
        requires
            old(self).wf(),
            old(self).pos() < old(self).chars().len(),
            ident_start(old(self).chars()[old(self).pos()]),
        ensures
            final(self).wf(),
            final(self).chars() == old(self).chars(),
            final(self).file_name() == old(self).file_name(),
            final(self).source_lines() == old(self).source_lines(),
            final(self).made() == old(self).made(),
            final(self).pos() == ident_end(old(self).chars(), old(self).pos()),
            final(self).pos() > old(self).pos(),
            final(self).cur_row() == old(self).cur_row(),
            final(self).cur_column() == old(self).cur_column() + (final(self).pos() - old(
                self,
            ).pos()),
            r.token_type@ == word_kind(
                old(self).chars().subrange(old(self).pos(), final(self).pos()),
            ),
            old(self).fresh(r),
    {
        let mut current: Vec<char> = Vec::new();
        let mut k: usize = self.position;
        while k < self.contents.len() && (is_alphanumeric(self.contents[k]) || self.contents[k]
            == '_')
            invariant
                self.position <= k <= self.contents@.len(),
                current@ == self.contents@.subrange(self.position as int, k as int),
                ident_end(self.contents@, self.position as int) == ident_end(
                    self.contents@,
                    k as int,
                ),
            decreases self.contents@.len() - k,
        {
            current.push(self.contents[k]);
            k += 1;
        }
        let token_type = identifier_kind(&current);
        let token = self.make_token(token_type);
        let length = k - self.position;
        self.column += length;
        self.position = k;
        token
    }

    /// Scans a literal between the delimiters `delim` that opens at the current
    /// position: its text, delimiters included, the position after it, and the row and
    /// column after it.
    fn scan_quoted(&self, delim: char) -> (r: (Vec<char>, usize, usize, usize))
        requires
            self.wf(),
            self.position < self.contents@.len(),
            self.contents@[self.position as int] == delim,
        ensures
            ({
                let (stop, row2, col2) = quoted_scan(
                    self.contents@,
                    self.position + 1,
                    delim,
                    self.row as int,
                    self.column + 1,
                );
                let e = if stop < self.contents@.len() {
                    stop + 1
                } else {
                    self.contents@.len() as int
                };
                &&& r.1 == e
                &&& r.2 == row2
                &&& r.3 == col2
                &&& r.0@ == self.contents@.subrange(self.position as int, e)
                &&& self.position < e <= self.contents@.len()
                &&& 1 <= row2 <= e
                &&& 1 <= col2 <= e + 1
            }),
    {
        let mut text: Vec<char> = Vec::new();
        text.push(delim);
        let mut k: usize = self.position + 1;
        let mut new_row: usize = self.row;
        let mut new_column: usize = self.column + 1;
        assert(text@ =~= self.contents@.subrange(self.position as int, k as int));
        loop
            invariant
                self.wf(),
                self.position < k <= self.contents@.len(),
                text@ == self.contents@.subrange(self.position as int, k as int),
                quoted_scan(self.contents@, k as int, delim, new_row as int, new_column as int)
                    == quoted_scan(
                    self.contents@,
                    self.position + 1,
                    delim,
                    self.row as int,
                    self.column + 1,
                ),
                1 <= new_row <= self.row + (k - self.position - 1),
                1 <= new_column <= self.column + 1 + (k - self.position - 1),
            decreases self.contents@.len() - k,
        {
            if k >= self.contents.len() {
                return (text, self.contents.len(), new_row, new_column);
            }
            let c = self.contents[k];
            if c == '\n' {
                new_row += 1;
                new_column = 1;
            }
            text.push(c);
            new_column += 1;
            if c == delim {
                assert(text@ =~= self.contents@.subrange(self.position as int, k + 1));
                return (text, k + 1, new_row, new_column);
            }
            k += 1;
            assert(text@ =~= self.contents@.subrange(self.position as int, k as int));
        }
    }

    /// Reads a string literal, quotes included, with its escapes resolved.
    pub fn tokenize_string_literal(&mut self) -> (r: Token)
        requires
            old(self).wf(),
            old(self).pos() < old(self).chars().len(),
            old(self).chars()[old(self).pos()] == '"',
        ensures
            final(self).wf(),
            final(self).chars() == old(self).chars(),
            final(self).file_name() == old(self).file_name(),
            final(self).source_lines() == old(self).source_lines(),
            final(self).made() == old(self).made(),
            lex_step(old(self).chars(), old(self).pos(), old(self).cur_row(), old(self).cur_column())
                == Ok::<(Option<TokenKind>, int, int, int), LexFailure>(
                (
                    Some(r.token_type@),
                    final(self).pos(),
                    final(self).cur_row(),
                    final(self).cur_column(),
                ),
            ),
            final(self).pos() > old(self).pos(),
            old(self).fresh(r),
    {
        let (text, end, new_row, new_column) = self.scan_quoted('"');
        let text = replace_pair_of(&text, '\\', 'n', '\n');
        let text = replace_pair_of(&text, '\\', 't', '\t');
        let text = replace_pair_of(&text, '\\', 'r', '\r');
        let token = self.make_token(TokenType::StringLiteral { value: string_from(text.as_slice()) });
        self.position = end;
        self.row = new_row;
        self.column = new_column;
        token
    }

    /// Reads a regex literal, backticks included.
    pub fn tokenize_regex_literal(&mut self) -> (r: Token)
        requires
            old(self).wf(),
            old(self).pos() < old(self).chars().len(),
            old(self).chars()[old(self).pos()] == '`',
        ensures
            final(self).wf(),
            final(self).chars() == old(self).chars(),
            final(self).file_name() == old(self).file_name(),
            final(self).source_lines() == old(self).source_lines(),
            final(self).made() == old(self).made(),
            lex_step(old(self).chars(), old(self).pos(), old(self).cur_row(), old(self).cur_column())
                == Ok::<(Option<TokenKind>, int, int, int), LexFailure>(
                (
                    Some(r.token_type@),
                    final(self).pos(),
                    final(self).cur_row(),
                    final(self).cur_column(),
                ),
            ),
            final(self).pos() > old(self).pos(),
            old(self).fresh(r),
    {
        let (text, end, new_row, new_column) = self.scan_quoted('`');
        let token = self.make_token(TokenType::RegexLiteral { value: string_from(text.as_slice()) });
        self.position = end;
        self.row = new_row;
        self.column = new_column;
        token
    }
}

impl Lexer {
    /// Reads the number at the current position without moving: the token and the
    /// position after it, or why it is not a number the language accepts.
    fn lex_number(&self) -> (r: Result<(TokenType, usize), LexFailure>)
        requires
            self.wf(),
            self.position < self.contents@.len(),
            is_digit(self.contents@[self.position as int]),
        ensures
            ({
                let e = number_end(self.contents@, self.position as int);
                let text = self.contents@.subrange(self.position as int, e);
                match r {
                    Ok((t, end)) => {
                        &&& end == e
                        &&& self.position < end <= self.contents@.len()
                        &&& dot_count(text) < 2
                        &&& dot_count(text) == 1 ==> t@ == TokenKind::FloatLiteral(text)
                        &&& dot_count(text) == 0 ==> digits_value(text) <= i64::MAX && t@
                            == TokenKind::IntegerLiteral(digits_value(text) as i64)
                    },
                    Err(f) => {
                        &&& dot_count(text) >= 2 ==> f == LexFailure::UnexpectedCharacter('.')
                        &&& dot_count(text) < 2 ==> f == LexFailure::IntegerOutOfRange
                            && dot_count(text) == 0 && digits_value(text) > i64::MAX
                    },
                }
            }),
    {
        let mut text: Vec<char> = Vec::new();
        let mut dots: usize = 0;
        let mut k: usize = self.position;
        while k < self.contents.len() && (('0' <= self.contents[k] && self.contents[k] <= '9')
            || self.contents[k] == '.')
            invariant
                self.position <= k <= self.contents@.len(),
                text@ == self.contents@.subrange(self.position as int, k as int),
                number_end(self.contents@, self.position as int) == number_end(
                    self.contents@,
                    k as int,
                ),
                dots == dot_count(text@),
                dots <= k - self.position,
                forall|j: int|
                    0 <= j < text@.len() ==> is_digit(#[trigger] text@[j]) || text@[j] == '.',
            decreases self.contents@.len() - k,
        {
            let ghost before = text@;
            text.push(self.contents[k]);
            assert(text@.drop_last() =~= before);
            if self.contents[k] == '.' {
                dots += 1;
            }
            k += 1;
        }
        if dots >= 2 {
            return Err(LexFailure::UnexpectedCharacter('.'));
        }
        if dots == 1 {
            return Ok((TokenType::FloatLiteral { value: string_from(text.as_slice()) }, k));
        }
        let ghost all = text@;
        proof {
            assert forall|j: int| 0 <= j < all.len() implies is_digit(#[trigger] all[j]) by {
                if !is_digit(all[j]) {
                    assert(all[j] == '.');
                    lemma_dot_in(all, j);
                }
            }
        }
        let mut value: i64 = 0;
        let mut i: usize = 0;
        while i < text.len()
            invariant
                i <= text@.len(),
                text@ == all,
                forall|j: int| 0 <= j < all.len() ==> is_digit(#[trigger] all[j]),
                value == digits_value(all.take(i as int)),
                value >= 0,
                all == self.contents@.subrange(
                    self.position as int,
                    number_end(self.contents@, self.position as int),
                ),
                dot_count(all) == 0,
            decreases text@.len() - i,
        {
            let d = (text[i] as u32 - '0' as u32) as i64;
            assert(all.take(i + 1).drop_last() =~= all.take(i as int));
            assert(0 <= d <= 9);
            if value > (i64::MAX - d) / 10 {
                proof {
                    assert(digits_value(all.take(i + 1)) == 10 * value + d);
                    assert(10 * value + d > i64::MAX) by (nonlinear_arith)
                        requires
                            value > (i64::MAX - d) / 10,
                            0 <= d <= 9,
                    ;
                    lemma_digits_value_grows(all, i + 1);
                    assert(all.take(all.len() as int) =~= all);
                }
                return Err(LexFailure::IntegerOutOfRange);
            }
            assert(value * 10 + d <= i64::MAX) by (nonlinear_arith)
                requires
                    0 <= value <= (i64::MAX - d) / 10,
                    0 <= d <= 9,
            ;
            value = value * 10 + d;
            i += 1;
        }
        assert(all.take(all.len() as int) =~= all);
        Ok((TokenType::IntegerLiteral { value }, k))
    }

    /// Reads an integer or float literal.
    pub fn tokenize_number_literal(&mut self) -> (r: Token)
        requires
            old(self).wf(),
            old(self).pos() < old(self).chars().len(),
            is_digit(old(self).chars()[old(self).pos()]),
            lex_step(old(self).chars(), old(self).pos(), old(self).cur_row(), old(self).cur_column()) is Ok,
        ensures
            final(self).wf(),
            final(self).chars() == old(self).chars(),
            final(self).file_name() == old(self).file_name(),
            final(self).source_lines() == old(self).source_lines(),
            final(self).made() == old(self).made(),
            lex_step(old(self).chars(), old(self).pos(), old(self).cur_row(), old(self).cur_column())
                == Ok::<(Option<TokenKind>, int, int, int), LexFailure>(
                (
                    Some(r.token_type@),
                    final(self).pos(),
                    final(self).cur_row(),
                    final(self).cur_column(),
                ),
            ),
            old(self).fresh(r),
    {
        match self.lex_number() {
            Ok((token_type, end)) => {
                let token = self.make_token(token_type);
                let length = end - self.position;
                self.column += length;
                self.position = end;
                token
            },
            Err(_) => self.make_token(TokenType::Nothing),
        }
    }
}

proof fn lemma_dot_in(s: Seq<char>, j: int)
    requires
        0 <= j < s.len(),
        s[j] == '.',
    ensures
        dot_count(s) >= 1,
    decreases s.len(),
{
    if j < s.len() - 1 {
        assert(s.drop_last()[j] == '.');
        lemma_dot_in(s.drop_last(), j);
    }
}

/// The token type of a binary operator spelled `s`.
fn binary_operator(s: &str) -> (r: TokenType)
    ensures
        r@ == TokenKind::BinaryOperator(s@),
{
    TokenType::BinaryOperator { value: crate::text::string_of(s) }
}

impl Lexer {
    /// One step of the lexer: reads the token, comment or blank at the current
    /// position.
    fn step(&mut self) -> (r: Result<(), LexFailure>)
        requires
            old(self).wf(),
            old(self).pos() < old(self).chars().len(),
        ensures
            final(self).wf(),
            final(self).chars() == old(self).chars(),
            final(self).file_name() == old(self).file_name(),
            final(self).source_lines() == old(self).source_lines(),
            stepped(*old(self), *final(self), r),
            r is Ok ==> final(self).pos() > old(self).pos(),
    {
        proof {
            reveal_strlit("/");
            reveal_strlit("<=");
            reveal_strlit("<");
            reveal_strlit(">=");
            reveal_strlit(">");
            reveal_strlit("==");
            reveal_strlit("!=");
            reveal_strlit("!");
            reveal_strlit("&&");
            reveal_strlit("||");
            assert("/"@ =~= seq!['/']);
            assert("<="@ =~= seq!['<', '=']);
            assert("<"@ =~= seq!['<']);
            assert(">="@ =~= seq!['>', '=']);
            assert(">"@ =~= seq!['>']);
            assert("=="@ =~= seq!['=', '=']);
            assert("!="@ =~= seq!['!', '=']);
            assert("!"@ =~= seq!['!']);
            assert("&&"@ =~= seq!['&', '&']);
            assert("||"@ =~= seq!['|', '|']);
        }
        let c = self.contents[self.position];
        let len = self.contents.len();
        let has_next = self.position + 1 < len;
        let next = if has_next {
            self.contents[self.position + 1]
        } else {
            ' '
        };
        if c == '{' {
            self.push_token(TokenType::OpenBlock, 1, 1);
        } else if c == '}' {
            self.push_token(TokenType::CloseBlock, 1, 1);
        } else if c == '(' {
            self.push_token(TokenType::OpenParen, 1, 1);
        } else if c == ')' {
            self.push_token(TokenType::CloseParen, 1, 1);
        } else if c == ';' {
            self.push_token(TokenType::Semicolon, 1, 1);
        } else if c == ',' {
            self.push_token(TokenType::Comma, 1, 1);
        } else if c == ':' {
            self.push_token(TokenType::Colon, 1, 1);
        } else if c == '+' || c == '-' || c == '*' || c == '%' {
            self.push_token(TokenType::BinaryOperator { value: string_of_char(c) }, 1, 1);
        } else if c == '/' {
            if has_next && next == '/' {
                let mut k: usize = self.position + 1;
                while k < len && self.contents[k] != '\n'
                    invariant
                        self.position + 1 <= k <= len,
                        len == self.contents@.len(),
                        line_end(self.contents@, self.position + 1) == line_end(
                            self.contents@,
                            k as int,
                        ),
                    decreases len - k,
                {
                    k += 1;
                }
                let end = if k < len {
                    k + 1
                } else {
                    len
                };
                let width = end - self.position;
                self.skip_chars(width, self.row + 1, 1);
            } else {
                self.push_token(binary_operator("/"), 1, 1);
            }
        } else if c == '<' {
            if has_next && next == '=' {
                self.push_token(binary_operator("<="), 2, 2);
            } else {
                self.push_token(binary_operator("<"), 1, 1);
            }
        } else if c == '>' {
            if has_next && next == '=' {
                self.push_token(binary_operator(">="), 2, 2);
            } else {
                self.push_token(binary_operator(">"), 1, 1);
            }
        } else if c == '=' {
            if has_next && next == '=' {
                self.push_token(binary_operator("=="), 2, 2);
            } else {
                self.push_token(TokenType::AssignmentOperator, 1, 1);
            }
        } else if c == '!' {
            if has_next && next == '=' {
                self.push_token(binary_operator("!="), 2, 2);
            } else {
                self.push_token(
                    TokenType::UnaryOperator { value: crate::text::string_of("!") },
                    1,
                    1,
                );
            }
        } else if c == '&' {
            if has_next && next == '&' {
                self.push_token(binary_operator("&&"), 2, 2);
            } else {
                return Err(LexFailure::UnexpectedCharacter('&'));
            }
        } else if c == '|' {
            if has_next && next == '|' {
                self.push_token(binary_operator("||"), 2, 2);
            } else {
                return Err(LexFailure::UnexpectedCharacter('|'));
            }
        } else if ('a' <= c && c <= 'z') || ('A' <= c && c <= 'Z') || c == '_' {
            let ghost before = *self;
            let token = self.tokenize_identifier();
            self.push_made(token);
            assert(self.tokens@.take(before.tokens@.len() as int) =~= before.tokens@);
        } else if c == '"' {
            let ghost before = *self;
            let token = self.tokenize_string_literal();
            self.push_made(token);
            assert(self.tokens@.take(before.tokens@.len() as int) =~= before.tokens@);
        } else if c == '`' {
            let ghost before = *self;
            let token = self.tokenize_regex_literal();
            self.push_made(token);
            assert(self.tokens@.take(before.tokens@.len() as int) =~= before.tokens@);
        } else if '0' <= c && c <= '9' {
            match self.lex_number() {
                Ok((token_type, end)) => {
                    let width = end - self.position;
                    self.push_token(token_type, width, width);
                },
                Err(e) => {
                    return Err(e);
                },
            }
        } else if c == '\n' {
            self.skip_chars(1, self.row + 1, 1);
        } else if c == ' ' || c == '\t' {
            self.skip_chars(1, self.row, self.column + 1);
        } else {
            return Err(LexFailure::UnexpectedCharacter(c));
        }
        Ok(())
    }

    /// Reads the rest of the source: the tokens made, or why the source cannot be
    /// split into tokens.
    pub fn try_tokenize(&mut self) -> (r: Result<TokenCollection, LexFailure>)
        requires
            old(self).wf(),
        ensures
            final(self).wf(),
            final(self).chars() == old(self).chars(),
            final(self).file_name() == old(self).file_name(),
            final(self).source_lines() == old(self).source_lines(),
            match r {
                Ok(c) => {
                    &&& prepend(
                        lexemes_of(old(self).made()),
                        lex_from(old(self).chars(), old(self).pos(), old(self).cur_row(), old(self).cur_column()),
                    ) == Ok::<Seq<Lexeme>, LexFailure>(lexemes_of(c.tokens@))
                    &&& tokens_placed(c.tokens@, old(self).file_name(), old(self).source_lines())
                    &&& c.index == 0
                    &&& !c.started
                },
                Err(e) => lex_from(
                    old(self).chars(),
                    old(self).pos(),
                    old(self).cur_row(),
                    old(self).cur_column(),
                ) == Err::<Seq<Lexeme>, LexFailure>(e),
            },
    {
        while self.position < self.contents.len()
            invariant
                self.wf(),
                self.contents@ == old(self).contents@,
                self.file@ == old(self).file@,
                self.source_lines() == old(self).source_lines(),
                prepend(
                    lexemes_of(self.tokens@),
                    lex_from(self.contents@, self.position as int, self.row as int, self.column as int),
                ) == prepend(
                    lexemes_of(old(self).tokens@),
                    lex_from(old(self).contents@, old(self).position as int, old(self).row as int, old(self).column as int),
                ),
                lex_from(old(self).contents@, old(self).position as int, old(self).row as int, old(self).column as int) is Err
                    ==> prepend(
                    lexemes_of(self.tokens@),
                    lex_from(self.contents@, self.position as int, self.row as int, self.column as int),
                ) == lex_from(old(self).contents@, old(self).position as int, old(self).row as int, old(self).column as int),
            decreases self.contents@.len() - self.position,
        {
            let ghost before = *self;
            match self.step() {
                Err(e) => {
                    return Err(e);
                },
                Ok(()) => {
                    proof {
                        let cs = before.contents@;
                        let p = before.position as int;
                        let (t, np, nr, nc) = lex_step(cs, p, before.row as int, before.column as int)->Ok_0;
                        let rest = lex_from(cs, np, nr, nc);
                        let now = match t {
                            Some(k) => seq![(k, before.row as int, before.column as int)],
                            None => Seq::<Lexeme>::empty(),
                        };
                        assert(lex_from(cs, p, before.row as int, before.column as int) == prepend(now, rest));
                        match t {
                            Some(k) => {
                                assert(self.tokens@ =~= before.tokens@.push(self.tokens@.last()));
                                assert(lexemes_of(self.tokens@) =~= lexemes_of(before.tokens@) + now);
                            },
                            None => {
                                assert(lexemes_of(self.tokens@) =~= lexemes_of(before.tokens@) + now);
                            },
                        }
                        match rest {
                            Ok(sq) => {
                                assert(lexemes_of(before.tokens@) + (now + sq) =~= lexemes_of(self.tokens@) + sq);
                            },
                            Err(_) => {},
                        }
                    }
                },
            }
        }
        proof {
            assert(lexemes_of(self.tokens@) + Seq::<Lexeme>::empty() =~= lexemes_of(self.tokens@));
        }
        Ok(TokenCollection::new(self.tokens.clone()))
    }

    /// Reads the rest of the source into tokens; the source must be one the language
    /// accepts.
    pub fn tokenize(&mut self) -> (r: TokenCollection)
        requires
            old(self).wf(),
            lex_from(old(self).chars(), old(self).pos(), old(self).cur_row(), old(self).cur_column()) is Ok,
        ensures
            final(self).wf(),
            prepend(
                lexemes_of(old(self).made()),
                lex_from(old(self).chars(), old(self).pos(), old(self).cur_row(), old(self).cur_column()),
            ) == Ok::<Seq<Lexeme>, LexFailure>(lexemes_of(r.tokens@)),
            tokens_placed(r.tokens@, old(self).file_name(), old(self).source_lines()),
            r.index == 0,
            !r.started,
    {
        match self.try_tokenize() {
            Ok(c) => c,
            Err(_) => TokenCollection::new(Vec::new()),
        }
    }
}

/// The lines of a text, as `str::lines` splits them.
fn split_lines(cs: &Vec<char>) -> (r: Vec<String>)
    ensures
        r@.map_values(|l: String| l@) == lines_from(cs@, 0),
{
    let mut r: Vec<String> = Vec::new();
    let mut q: usize = 0;
    while q < cs.len()
        invariant
            q <= cs@.len(),
            r@.map_values(|l: String| l@) + lines_from(cs@, q as int) == lines_from(cs@, 0),
        decreases cs@.len() - q,
    {
        let mut piece: Vec<char> = Vec::new();
        let mut k: usize = q;
        while k < cs.len() && cs[k] != '\n'
            invariant
                q <= k <= cs@.len(),
                piece@ == cs@.subrange(q as int, k as int),
                line_end(cs@, q as int) == line_end(cs@, k as int),
            decreases cs@.len() - k,
        {
            piece.push(cs[k]);
            k += 1;
        }
        let ghost old_r = r@.map_values(|l: String| l@);
        if k >= cs.len() {
            let line = string_from(piece.as_slice());
            r.push(line);
            assert(lines_from(cs@, k as int) == Seq::<Seq<char>>::empty());
            assert(r@.map_values(|l: String| l@) =~= old_r.push(piece@));
            q = k;
        } else {
            if piece.len() > 0 && piece[piece.len() - 1] == '\r' {
                piece.pop();
            }
            let line = string_from(piece.as_slice());
            r.push(line);
            assert(r@.map_values(|l: String| l@) =~= old_r.push(line@));
            assert(lines_from(cs@, q as int) == seq![line@] + lines_from(cs@, k + 1));
            assert(old_r + lines_from(cs@, q as int) =~= r@.map_values(|l: String| l@)
                + lines_from(cs@, k + 1));
            q = k + 1;
        }
    }
    assert(lines_from(cs@, q as int) == Seq::<Seq<char>>::empty());
    assert(r@.map_values(|l: String| l@) =~= r@.map_values(|l: String| l@) + lines_from(cs@, q as int));
    r
}

} // verus!
