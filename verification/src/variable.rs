use vstd::prelude::*;

use crate::text::{
    chars_of, is_lowercase, is_uppercase, lowercase_first, string_from, to_lowercase_first,
    to_uppercase_first, unicode_lowercase, unicode_uppercase, uppercase_first, utf8_len,
};
use crate::token::Token;
use crate::types::Type;

verus! {

/// A variable, constant or parameter, with the tokens that declared it.
#[derive(Debug, PartialEq)]
pub struct Variable {
    pub name: String,
    pub var_type: Type,
    pub declaration_token: Token,
    pub identifier_token: Token,
    pub last_assignment_token: Token,
    pub type_token: Token,
    pub constant: bool,
    pub read: bool,
    pub assigned: bool,
}

impl Clone for Variable {
    fn clone(&self) -> (r: Variable)
        ensures
            r == *self,
    {
        Variable {
            name: self.name.clone(),
            var_type: self.var_type.clone(),
            declaration_token: self.declaration_token.clone(),
            identifier_token: self.identifier_token.clone(),
            last_assignment_token: self.last_assignment_token.clone(),
            type_token: self.type_token.clone(),
            constant: self.constant,
            read: self.read,
            assigned: self.assigned,
        }
    }
}

/// Whether a name is written in snake_case: lowercase letters and underscores only.
pub open spec fn snake_case(s: Seq<char>) -> bool {
    forall|i: int| 0 <= i < s.len() ==> unicode_lowercase(#[trigger] s[i]) || s[i] == '_'
}

/// Whether a name is written in UPPER_SNAKE_CASE: uppercase letters and underscores only.
pub open spec fn upper_snake_case(s: Seq<char>) -> bool {
    forall|i: int| 0 <= i < s.len() ==> unicode_uppercase(#[trigger] s[i]) || s[i] == '_'
}

/// Whether an underscore goes before character `i` of a name whose text takes `bytes`
/// bytes: it is an uppercase character, not the first, followed by a lowercase one,
/// and its index is smaller than the byte length less one.
pub open spec fn word_break(s: Seq<char>, bytes: int, i: int) -> bool {
    &&& i > 0
    &&& unicode_uppercase(s[i])
    &&& i < bytes - 1
    &&& i + 1 < s.len()
    &&& unicode_lowercase(s[i + 1])
}

/// Whether converting a name would look for a character past its end: the index of an
/// uppercase character (not the first) is smaller than the byte length less one but
/// it is the last character.
pub open spec fn conversion_overruns(s: Seq<char>, bytes: int) -> bool {
    exists|i: int|
        0 < i < s.len() && unicode_uppercase(#[trigger] s[i]) && i < bytes - 1 && i + 1
            >= s.len()
}

/// The name with an underscore before each word break and each character mapped to
/// the first character of its lowercase (or, if `upper`, uppercase) form.
pub open spec fn convert_case(s: Seq<char>, bytes: int, upper: bool, n: int) -> Seq<char>
    decreases n,
{
    if n <= 0 {
        seq![]
    } else {
        let i = n - 1;
        let mapped = if upper { uppercase_first(s[i]) } else { lowercase_first(s[i]) };
        convert_case(s, bytes, upper, n - 1) + (if word_break(s, bytes, i) {
            seq!['_', mapped]
        } else {
            seq![mapped]
        })
    }
}

/// Checks and converts the case style of names.
/// A name in snake_case (or UPPER_SNAKE_CASE, if `upper`): converted where the
/// conversion stays within the name (see `convert_case`), else unchanged.
pub open spec fn converted(s: Seq<char>, upper: bool) -> Seq<char> {
    if conversion_overruns(s, utf8_len(s) as int) {
        s
    } else {
        convert_case(s, utf8_len(s) as int, upper, s.len() as int)
    }
}

pub trait SnakeCase {
    fn is_snake_case(&self) -> bool;

    fn is_upper_snake_case(&self) -> bool;

    fn to_snake_case(&self) -> String;

    fn to_upper_snake_case(&self) -> String;
}

fn convert(s: &String, upper: bool) -> (r: String)
    requires
        !conversion_overruns(s@, utf8_len(s@) as int),
    ensures
        r@ == convert_case(s@, utf8_len(s@) as int, upper, s@.len() as int),
{
    let cs = chars_of(s.as_str());
    let bytes = s.as_str().len();
    let mut out: Vec<char> = Vec::new();
    let mut i: usize = 0;
    while i < cs.len()
        invariant
            cs@ == s@,
            bytes == utf8_len(s@),
            i <= cs@.len(),
            !conversion_overruns(s@, bytes as int),
            out@ == convert_case(s@, bytes as int, upper, i as int),
        decreases cs@.len() - i,
    {
        let c = cs[i];
        let mut brk = false;
        if i > 0 && is_uppercase(c) && (bytes >= 1 && i < bytes - 1) {
            if i + 1 < cs.len() {
                brk = is_lowercase(cs[i + 1]);
            } else {
                proof {
                    assert(conversion_overruns(s@, bytes as int));
                }
            }
        }
        if brk {
            out.push('_');
        }
        let mapped = if upper {
            to_uppercase_first(c)
        } else {
            to_lowercase_first(c)
        };
        out.push(mapped);
        i += 1;
        assert(out@ =~= convert_case(s@, bytes as int, upper, i as int));
    }
    string_from(out.as_slice())
}

impl SnakeCase for String {
    fn is_snake_case(&self) -> (r: bool)
        ensures
            r == snake_case(self@),
    {
        let cs = chars_of(self.as_str());
        let mut i: usize = 0;
        while i < cs.len()
            invariant
                cs@ == self@,
                i <= cs@.len(),
                forall|j: int| 0 <= j < i ==> unicode_lowercase(#[trigger] cs@[j]) || cs@[j] == '_',
            decreases cs@.len() - i,
        {
            if !(is_lowercase(cs[i]) || cs[i] == '_') {
                return false;
            }
            i += 1;
        }
        true
    }

    fn is_upper_snake_case(&self) -> (r: bool)
        ensures
            r == upper_snake_case(self@),
    {
        let cs = chars_of(self.as_str());
        let mut i: usize = 0;
        while i < cs.len()
            invariant
                cs@ == self@,
                i <= cs@.len(),
                forall|j: int| 0 <= j < i ==> unicode_uppercase(#[trigger] cs@[j]) || cs@[j] == '_',
            decreases cs@.len() - i,
        {
            if !(is_uppercase(cs[i]) || cs[i] == '_') {
                return false;
            }
            i += 1;
        }
        true
    }

    fn to_snake_case(&self) -> (r: String)
        ensures
            r@ == converted(self@, false),
    {
        if overruns(self) {
            return self.clone();
        }
        convert(self, false)
    }

    fn to_upper_snake_case(&self) -> (r: String)
        ensures
            r@ == converted(self@, true),
    {
        if overruns(self) {
            return self.clone();
        }
        convert(self, true)
    }
}

/// Whether converting the case of `s` would look past its end.
pub fn overruns(s: &String) -> (r: bool)
    ensures
        r == conversion_overruns(s@, utf8_len(s@) as int),
{
    let cs = chars_of(s.as_str());
    let bytes = s.as_str().len();
    if cs.len() < 2 {
        return false;
    }
    let i = cs.len() - 1;
    let r = is_uppercase(cs[i]) && bytes >= 1 && i < bytes - 1;
    proof {
        if r {
            assert(unicode_uppercase(s@[i as int]));
        }
        if conversion_overruns(s@, bytes as int) {
            let j = choose|j: int|
                0 < j < s@.len() && unicode_uppercase(#[trigger] s@[j]) && j < bytes - 1 && j + 1
                    >= s@.len();
            assert(j == i);
        }
    }
    r
}

} // verus!
