use vstd::prelude::*;

use regex_syntax::hir::{Class, Hir, HirKind};

use crate::error::{ParserError, ParserErrorType};
use crate::text::{chars_of, string_from};
use crate::token::{Token, TokenType};

verus! {

/// A regular expression as the expansion reads it.
#[derive(Debug, PartialEq)]
pub enum RegexNode {
    /// A literal text.
    Literal(String),
    /// A class of characters, as inclusive ranges.
    Class(Vec<(char, char)>),
    /// `sub` repeated at least `min` and at most `max` times, or without upper bound.
    Repetition { min: u32, max: Option<u32>, sub: Box<RegexNode> },
    /// A sequence of expressions.
    Concat(Vec<RegexNode>),
    /// An expression the expansion does not support (alternation, anchors, groups...).
    Unsupported,
}

/// The tree that `regex_syntax::parse` builds from `pattern`, in the terms of
/// `RegexNode`, or nothing if the pattern does not parse or holds a byte class that
/// has no Unicode form.
pub uninterp spec fn regex_syntax_tree(pattern: Seq<char>) -> Option<RegexNode>;

/// The syntax tree of `regex_syntax`, carried through without being read.
#[verifier::external_type_specification]
#[verifier::external_body]
pub struct ExHir(Hir);

/// A class of characters of `regex_syntax`, carried through without being read.
#[verifier::external_type_specification]
#[verifier::external_body]
pub struct ExClass(Class);

/// Converts a class of `regex_syntax` into its ranges of characters; a class of
/// bytes is taken as the Unicode class it stands for, if there is one.
#[verifier::external_body]
fn class_node(class: &Class) -> Option<RegexNode> {
    let unicode = match class {
        Class::Unicode(c) => Some(c.clone()),
        Class::Bytes(c) => c.to_unicode_class(),
    };
    unicode.map(|c| RegexNode::Class(c.ranges().iter().map(|r| (r.start(), r.end())).collect()))
}

/// Converts a tree of `regex_syntax` into a `RegexNode`, level by level.
#[verifier::external_body]
fn node_of(hir: &Hir) -> Option<RegexNode> {
    match hir.kind() {
        HirKind::Literal(l) => Some(RegexNode::Literal(String::from_utf8_lossy(&l.0).to_string())),
        HirKind::Class(c) => class_node(c),
        HirKind::Repetition(r) => node_of(&r.sub).map(|s| RegexNode::Repetition { min: r.min, max: r.max, sub: Box::new(s) }),
        HirKind::Concat(hs) => hs.iter().map(node_of).collect::<Option<Vec<_>>>().map(RegexNode::Concat),
        _ => Some(RegexNode::Unsupported),
    }
}

/// Parses `pattern` with `regex_syntax::parse`; the tree is named `regex_syntax_tree`.
#[verifier::external_body]
fn parse_tree(pattern: &str) -> (r: Option<RegexNode>)
    ensures
        r == regex_syntax_tree(pattern@),
{
    regex_syntax::parse(pattern).ok().and_then(|h| node_of(&h))
}

/// All sequences of `n` items of `items`, in lexicographic order: the last position
/// varies fastest. With `n` zero there is one, the empty sequence.
pub open spec fn cartesian_power<A>(items: Seq<A>, n: nat) -> Seq<Seq<A>>
    decreases n,
{
    if n == 0 {
        seq![seq![]]
    } else {
        let shorter = cartesian_power(items, (n - 1) as nat);
        shorter.map_values(|p: Seq<A>| items.map_values(|x: A| p.push(x))).flatten()
    }
}

/// Whether the character with code `c` is kept when a class is expanded: a printable
/// ASCII character or ASCII blank other than the newline.
pub open spec fn kept_code(c: u32) -> bool {
    c == 9 || c == 12 || c == 13 || (32 <= c <= 126)
}

/// The one-character texts of the kept characters of the codes `lo..=hi`.
pub open spec fn kept_range(lo: int, hi: int) -> Seq<Seq<char>>
    decreases hi - lo + 1,
{
    if hi < lo {
        seq![]
    } else {
        kept_range(lo, hi - 1) + if 0 <= hi <= 126 && kept_code(hi as u32) {
            seq![seq![hi as char]]
        } else {
            seq![]
        }
    }
}

/// The texts of a class: its kept characters, range by range.
pub open spec fn class_texts(ranges: Seq<(char, char)>) -> Seq<Seq<char>>
    decreases ranges.len(),
{
    if ranges.len() == 0 {
        seq![]
    } else {
        class_texts(ranges.drop_last()) + kept_range(
            ranges.last().0 as int,
            ranges.last().1 as int,
        )
    }
}

/// The kept characters of `lo..=hi` are in its texts, and its texts are kept
/// characters of that range, one each.
proof fn lemma_kept_range(lo: int, hi: int)
    ensures
        forall|c: char|
            lo <= c as int <= hi && 0 <= c as int <= 126 && kept_code(c as u32) ==> #[trigger] kept_range(
                lo,
                hi,
            ).contains(seq![c]),
        forall|x: Seq<char>|
            #[trigger] kept_range(lo, hi).contains(x) ==> x.len() == 1 && lo <= x[0] as int <= hi && x[0] as int
                <= 126 && kept_code(x[0] as u32),
    decreases hi - lo + 1,
{
    if hi >= lo {
        lemma_kept_range(lo, hi - 1);
        let prev = kept_range(lo, hi - 1);
        let last: Seq<Seq<char>> = if 0 <= hi <= 126 && kept_code(hi as u32) {
            seq![seq![hi as char]]
        } else {
            seq![]
        };
        assert(kept_range(lo, hi) == prev + last);
        assert forall|c: char| lo <= c as int <= hi && 0 <= c as int <= 126 && kept_code(c as u32) implies #[trigger] kept_range(
            lo,
            hi,
        ).contains(seq![c]) by {
            if c as int == hi {
                assert(c as u32 == hi as u32);
                assert(0 <= hi);
                assert((hi as char) == c);
                assert(last == seq![seq![c]]);
                assert((prev + last)[prev.len() as int] == seq![c]);
            } else {
                assert(prev.contains(seq![c]));
                let k = choose|k: int| 0 <= k < prev.len() && prev[k] == seq![c];
                assert((prev + last)[k] == seq![c]);
            }
        }
        assert forall|x: Seq<char>| #[trigger] kept_range(lo, hi).contains(x) implies x.len() == 1 && lo
            <= x[0] as int <= hi && x[0] as int <= 126 && kept_code(x[0] as u32) by {
            let k = choose|k: int| 0 <= k < (prev + last).len() && (prev + last)[k] == x;
            if k < prev.len() {
                assert(prev.contains(x));
            } else {
                assert(x == seq![hi as char]);
                assert((hi as char) as int == hi);
                assert((hi as char) as u32 == hi as u32);
            }
        }
    }
}

/// The texts of a class are exactly its kept characters, one per text: each
/// printable ASCII character or ASCII blank other than the newline that lies in one
/// of its ranges (a range of one character included) is a text of the class, and
/// every text of the class is one such character.
pub proof fn law_class_texts(ranges: Seq<(char, char)>)
    ensures
        forall|k: int, c: char|
            #![trigger class_texts(ranges).contains(seq![c]), ranges[k]]
            0 <= k < ranges.len() && ranges[k].0 <= c && c <= ranges[k].1 && 0 <= c as int <= 126 && kept_code(
                c as u32,
            ) ==> class_texts(ranges).contains(seq![c]),
        forall|x: Seq<char>|
            #[trigger] class_texts(ranges).contains(x) ==> x.len() == 1 && x[0] as int <= 126 && kept_code(
                x[0] as u32,
            ) && exists|
                k: int,
            |
                0 <= k < ranges.len() && #[trigger] ranges[k].0 <= x[0] && x[0] <= ranges[k].1,
    decreases ranges.len(),
{
    if ranges.len() > 0 {
        let init = ranges.drop_last();
        law_class_texts(init);
        let (lo, hi) = ranges.last();
        lemma_kept_range(lo as int, hi as int);
        let a = class_texts(init);
        let b = kept_range(lo as int, hi as int);
        assert(class_texts(ranges) == a + b);
        assert forall|k: int, c: char|
            #![trigger class_texts(ranges).contains(seq![c]), ranges[k]]
            0 <= k < ranges.len() && ranges[k].0 <= c && c <= ranges[k].1 && 0 <= c as int <= 126 && kept_code(
                c as u32,
            ) implies class_texts(ranges).contains(seq![c]) by {
            if k == ranges.len() - 1 {
                assert(b.contains(seq![c]));
                let j = choose|j: int| 0 <= j < b.len() && b[j] == seq![c];
                assert((a + b)[a.len() + j] == seq![c]);
            } else {
                assert(init[k] == ranges[k]);
                assert(a.contains(seq![c]));
                let j = choose|j: int| 0 <= j < a.len() && a[j] == seq![c];
                assert((a + b)[j] == seq![c]);
            }
        }
        assert forall|x: Seq<char>| #[trigger] class_texts(ranges).contains(x) implies x.len() == 1
            && x[0] as int <= 126 && kept_code(x[0] as u32) && exists|k: int|
            0 <= k < ranges.len() && #[trigger] ranges[k].0 <= x[0] && x[0] <= ranges[k].1 by {
            let j = choose|j: int| 0 <= j < (a + b).len() && (a + b)[j] == x;
            if j < a.len() {
                assert(a.contains(x));
                let k = choose|k: int| 0 <= k < init.len() && #[trigger] init[k].0 <= x[0] && x[0] <= init[k].1;
                assert(init[k] == ranges[k]);
                assert(ranges[k].0 <= x[0]);
            } else {
                assert(b[j - a.len()] == x);
                assert(b.contains(x));
                assert(ranges[ranges.len() - 1].0 <= x[0]);
            }
        }
    }
}

/// The kept characters of a range come in increasing order.
proof fn lemma_kept_range_ascending(lo: int, hi: int)
    ensures
        forall|i: int, j: int|
            0 <= i < j < kept_range(lo, hi).len() ==> (#[trigger] kept_range(lo, hi)[i])[0] < (
            #[trigger] kept_range(lo, hi)[j])[0],
    decreases hi - lo + 1,
{
    if hi >= lo {
        lemma_kept_range_ascending(lo, hi - 1);
        lemma_kept_range(lo, hi - 1);
        let prev = kept_range(lo, hi - 1);
        let last: Seq<Seq<char>> = if 0 <= hi <= 126 && kept_code(hi as u32) {
            seq![seq![hi as char]]
        } else {
            seq![]
        };
        let all = kept_range(lo, hi);
        assert(all == prev + last);
        assert forall|i: int, j: int| 0 <= i < j < all.len() implies (#[trigger] all[i])[0] < (
        #[trigger] all[j])[0] by {
            if j < prev.len() {
                assert(all[i] == prev[i] && all[j] == prev[j]);
            } else {
                assert(all[i] == prev[i]);
                assert(prev.contains(prev[i]));
                assert(all[j] == seq![hi as char]);
                assert((hi as char) as int == hi);
            }
        }
    }
}

/// A class is expanded range by range, in the order of its ranges.
pub proof fn law_class_order(first: Seq<(char, char)>, second: Seq<(char, char)>)
    ensures
        class_texts(first + second) == class_texts(first) + class_texts(second),
    decreases second.len(),
{
    if second.len() == 0 {
        assert(first + second =~= first);
        assert(class_texts(first) + class_texts(second) =~= class_texts(first));
    } else {
        law_class_order(first, second.drop_last());
        assert((first + second).drop_last() =~= first + second.drop_last());
        assert((first + second).last() == second.last());
        assert(class_texts(first + second) =~= class_texts(first) + class_texts(second));
    }
}

/// The texts of a class of one range come in increasing character order.
pub proof fn law_range_ascending(lo: char, hi: char)
    ensures
        forall|i: int, j: int|
            0 <= i < j < class_texts(seq![(lo, hi)]).len() ==> (#[trigger] class_texts(seq![(lo, hi)])[i])[0]
                < (#[trigger] class_texts(seq![(lo, hi)])[j])[0],
{
    let single = seq![(lo, hi)];
    let k = kept_range(lo as int, hi as int);
    assert(single.drop_last() =~= Seq::<(char, char)>::empty());
    assert(class_texts(single.drop_last()) =~= Seq::<Seq<char>>::empty());
    assert(single.last() == (lo, hi));
    assert(class_texts(single) == Seq::<Seq<char>>::empty() + k);
    assert(Seq::<Seq<char>>::empty() + k =~= k);
    lemma_kept_range_ascending(lo as int, hi as int);
}

/// Every text of `left` followed by every text of `right`, in that order.
pub open spec fn concat_texts(left: Seq<Seq<char>>, right: Seq<Seq<char>>) -> Seq<Seq<char>> {
    left.map_values(|l: Seq<char>| row(l, right)).flatten()
}

/// Concatenating two lists of texts gives every text of the first followed by
/// every text of the second, the first list varying slowest: the text at
/// `i * right.len() + j` is `left[i] + right[j]`, and there are no others.
pub proof fn law_concat_order(left: Seq<Seq<char>>, right: Seq<Seq<char>>)
    ensures
        concat_texts(left, right).len() == left.len() * right.len(),
        forall|i: int, j: int|
            0 <= i < left.len() && 0 <= j < right.len() ==> #[trigger] concat_texts(left, right)[i
                * right.len() + j] == left[i] + #[trigger] right[j],
    decreases left.len(),
{
    let m: int = right.len() as int;
    let f = |l: Seq<char>| row(l, right);
    if left.len() == 0 {
        assert(left.map_values(f).len() == 0);
        assert(concat_texts(left, right) =~= Seq::<Seq<char>>::empty());
        assert(left.len() * right.len() == 0) by (nonlinear_arith)
            requires
                left.len() == 0,
        ;
    } else {
        let rest = left.drop_first();
        law_concat_order(rest, right);
        assert(left.map_values(f).drop_first() =~= rest.map_values(f));
        assert(left.map_values(f).first() == row(left[0], right));
        let c = concat_texts(left, right);
        let head = row(left[0], right);
        let tail = concat_texts(rest, right);
        assert(c == head + tail);
        assert(left.len() * m == m + rest.len() * m) by (nonlinear_arith)
            requires
                rest.len() == left.len() - 1,
        ;
        assert forall|i: int, j: int| 0 <= i < left.len() && 0 <= j < right.len() implies #[trigger] c[i * m
            + j] == left[i] + #[trigger] right[j] by {
            if i == 0 {
                assert(c[j] == head[j]);
            } else {
                assert(i * m + j == m + ((i - 1) * m + j)) by (nonlinear_arith);
                assert(0 <= (i - 1) * m + j < rest.len() * m) by (nonlinear_arith)
                    requires
                        0 <= i - 1 < rest.len(),
                        0 <= j < m,
                ;
                assert(rest[i - 1] == left[i]);
                assert(tail[(i - 1) * m + j] == rest[i - 1] + right[j]);
                assert(c[m + ((i - 1) * m + j)] == tail[(i - 1) * m + j]);
            }
        }
    }
}

/// `n` copies of the text `t`.
pub open spec fn copies(t: Seq<char>, n: nat) -> Seq<Seq<char>> {
    Seq::new(n, |i: int| t)
}

/// The only way to pick `n` texts from a list of one text is `n` copies of it.
proof fn lemma_power_of_one(t: Seq<char>, n: nat)
    ensures
        cartesian_power(seq![t], n) == seq![copies(t, n)],
        copies(t, n).flatten() == crate::values::repeated(t, n),
    decreases n,
{
    if n > 0 {
        lemma_power_of_one(t, (n - 1) as nat);
        let items = seq![t];
        let p = copies(t, (n - 1) as nat);
        let shorter = cartesian_power(items, (n - 1) as nat);
        let grown = shorter.map_values(|q: Seq<Seq<char>>| items.map_values(|x: Seq<char>| q.push(x)));
        assert(shorter == seq![p]);
        assert(grown.len() == 1);
        assert(grown[0].len() == 1);
        assert(grown[0][0] == p.push(t));
        assert(grown[0] =~= seq![p.push(t)]);
        grown.lemma_flatten_one_element();
        assert(grown.flatten() =~= seq![p.push(t)]);
        assert(p.push(t) =~= copies(t, n));
        let c = copies(t, n);
        c.lemma_flatten_and_flatten_alt_are_equivalent();
        p.lemma_flatten_and_flatten_alt_are_equivalent();
        assert(c.drop_last() =~= p);
        assert(c.flatten_alt() == p.flatten_alt() + t);
    } else {
        assert(copies(t, 0) =~= Seq::<Seq<char>>::empty());
        assert(copies(t, 0).flatten() =~= Seq::<char>::empty());
    }
}

/// Repeating a single text `t` from `lo` to `hi` times gives `t` written `lo` times,
/// then `lo + 1` times, and so on up to `hi` times: one text per count, fewest first.
pub proof fn law_repetition_counts(t: Seq<char>, lo: int, hi: int)
    requires
        0 <= lo,
        lo - 1 <= hi,
    ensures
        repetition_texts(seq![t], lo, hi).len() == hi - lo + 1,
        forall|k: int|
            0 <= k <= hi - lo ==> #[trigger] repetition_texts(seq![t], lo, hi)[k] == crate::values::repeated(
                t,
                (lo + k) as nat,
            ),
    decreases hi - lo + 1,
{
    if hi >= lo {
        law_repetition_counts(t, lo, hi - 1);
        lemma_power_of_one(t, hi as nat);
        let prev = repetition_texts(seq![t], lo, hi - 1);
        let last = flat_each(cartesian_power(seq![t], hi as nat));
        assert(last =~= seq![crate::values::repeated(t, hi as nat)]);
        assert(repetition_texts(seq![t], lo, hi) == prev + last);
        assert forall|k: int| 0 <= k <= hi - lo implies #[trigger] repetition_texts(seq![t], lo, hi)[k]
            == crate::values::repeated(t, (lo + k) as nat) by {
            if k < hi - lo {
                assert((prev + last)[k] == prev[k]);
            } else {
                assert((prev + last)[k] == last[0]);
            }
        }
    }
}

/// A literal text repeated from `min` to `top` times, or up to `max` times where the
/// repetition has no upper bound, stands for that text written `min` times, then
/// `min + 1` times, and so on up to the upper bound.
pub proof fn law_literal_repetition(s: String, min: u32, top: Option<u32>, max: u32)
    requires
        min <= match top {
            Some(t) => t as int,
            None => max as int,
        } + 1,
    ensures
        ({
            let hi: int = match top {
                Some(t) => t as int,
                None => max as int,
            };
            expansion(RegexNode::Repetition { min, max: top, sub: Box::new(RegexNode::Literal(s)) }, max) matches Some(
                ts,
            ) && ts.len() == hi - min + 1 && forall|k: int|
                0 <= k <= hi - min ==> #[trigger] ts[k] == crate::values::repeated(s@, (min + k) as nat)
        }),
{
    let hi: int = match top {
        Some(t) => t as int,
        None => max as int,
    };
    law_repetition_counts(s@, min as int, hi);
    let sub = RegexNode::Literal(s);
    assert(expansion(sub, max) == Some(seq![s@]));
    let node = RegexNode::Repetition { min, max: top, sub: Box::new(sub) };
    assert(expansion(node, max) == Some(repetition_texts(seq![s@], min as int, hi)));
}

/// Each product flattened into one text.
pub open spec fn flat_each(ps: Seq<Seq<Seq<char>>>) -> Seq<Seq<char>> {
    ps.map_values(|p: Seq<Seq<char>>| p.flatten())
}

/// The texts of each repetition count from `lo` to `hi`, in that order.
pub open spec fn repetition_texts(sub: Seq<Seq<char>>, lo: int, hi: int) -> Seq<Seq<char>>
    decreases hi - lo + 1,
{
    if hi < lo {
        seq![]
    } else {
        repetition_texts(sub, lo, hi - 1) + flat_each(cartesian_power(sub, hi as nat))
    }
}

/// All the texts a regular expression stands for, in the order of the expansion, or
/// nothing if it holds a construct the expansion does not support. A repetition
/// without upper bound stops at `max` repetitions.
pub open spec fn expansion(node: RegexNode, max: u32) -> Option<Seq<Seq<char>>>
    decreases node,
{
    match node {
        RegexNode::Literal(s) => Some(seq![s@]),
        RegexNode::Class(ranges) => Some(class_texts(ranges@)),
        RegexNode::Repetition { min, max: top, sub } => match expansion(*sub, max) {
            Some(texts) => Some(
                repetition_texts(
                    texts,
                    min as int,
                    match top {
                        Some(t) => t as int,
                        None => max as int,
                    },
                ),
            ),
            None => None,
        },
        RegexNode::Concat(parts) => concat_expansion(parts@, max),
        RegexNode::Unsupported => None,
    }
}

/// The expansion of a sequence of expressions: the products of their expansions, the
/// first expression varying slowest. An empty sequence has no texts.
pub open spec fn concat_expansion(parts: Seq<RegexNode>, max: u32) -> Option<Seq<Seq<char>>>
    decreases parts,
{
    if parts.len() == 0 {
        Some(seq![])
    } else {
        match concat_expansion(parts.drop_last(), max) {
            None => None,
            Some(before) => match expansion(parts.last(), max) {
                None => None,
                Some(last) => Some(
                    if before.len() == 0 {
                        last
                    } else {
                        concat_texts(before, last)
                    },
                ),
            },
        }
    }
}

/// The texts of a sequence of strings.
pub open spec fn texts(v: Seq<String>) -> Seq<Seq<char>> {
    v.map_values(|s: String| s@)
}

/// The texts of a sequence of vectors of strings.
pub open spec fn nested_texts(v: Seq<Vec<String>>) -> Seq<Seq<Seq<char>>> {
    v.map_values(|p: Vec<String>| texts(p@))
}

/// The texts made by `n`-fold products of `items`; calls
/// `Itertools::multi_cartesian_product` on `n` iterators that clone `items`. Its
/// documentation gives the lexicographic order and one empty product when `n` is
/// zero; the clones have the texts of the originals.
#[verifier::external_body]
fn products(items: &Vec<String>, n: u32) -> (r: Vec<Vec<String>>)
    ensures
        nested_texts(r@) == cartesian_power(texts(items@), n as nat),
{
    itertools::Itertools::multi_cartesian_product((0..n).map(|_| items.iter().cloned())).collect()
}

/// The strings `parts` one after the other.
pub fn join_all(parts: &Vec<String>) -> (r: String)
    ensures
        r@ == texts(parts@).flatten(),
{
    let mut r = String::new();
    let mut i: usize = 0;
    while i < parts.len()
        invariant
            i <= parts@.len(),
            r@ == texts(parts@.take(i as int)).flatten(),
        decreases parts@.len() - i,
    {
        proof {
            assert(texts(parts@.take(i + 1)) =~= texts(parts@.take(i as int)).push(parts@[i as int]@));
            texts(parts@.take(i as int)).lemma_flatten_push(parts@[i as int]@);
        }
        r.append(parts[i].as_str());
        i += 1;
    }
    assert(parts@.take(i as int) =~= parts@);
    r
}

proof fn lemma_kept_range_top(lo: int, hi: int)
    requires
        hi >= 126,
    ensures
        kept_range(lo, hi) == kept_range(lo, 126),
    decreases hi - 126,
{
    if hi > 126 {
        lemma_kept_range_top(lo, hi - 1);
        assert(kept_range(lo, hi) =~= kept_range(lo, hi - 1));
    }
}

/// Appends to `out` the texts of the kept characters from `lo` to `hi`.
fn push_kept_range(lo: char, hi: char, out: &mut Vec<String>)
    ensures
        texts(final(out)@) == texts(old(out)@) + kept_range(lo as int, hi as int),
{
    let lo_code = lo as u32;
    let hi_code = hi as u32;
    let top: u32 = if hi_code < 126 { hi_code } else { 126 };
    proof {
        if hi_code >= 126 {
            lemma_kept_range_top(lo as int, hi as int);
        }
        assert(kept_range(lo as int, lo as int - 1) =~= seq![]);
        assert(texts(out@) + kept_range(lo as int, lo as int - 1) =~= texts(out@));
    }
    if top < lo_code {
        assert(kept_range(lo as int, top as int) =~= seq![]);
        return;
    }
    let mut c: u32 = lo_code;
    let ghost start = texts(out@);
    while c <= top
        invariant
            lo_code <= c <= top + 1,
            top <= 126,
            lo_code == lo as int,
            texts(out@) == start + kept_range(lo as int, c - 1),
        decreases top + 1 - c,
    {
        let code: u8 = c as u8;
        if c == 9 || c == 12 || c == 13 || (32 <= c && c <= 126) {
            let t = crate::text::string_of_char(code as char);
            let ghost before = out@;
            out.push(t);
            proof {
                assert(texts(out@) =~= texts(before).push(t@));
            }
        }
        proof {
            assert(kept_range(lo as int, c as int) =~= kept_range(lo as int, c - 1) + (if 0 <= c <= 126
                && kept_code(c) {
                seq![seq![(c as int) as char]]
            } else {
                seq![]
            }));
        }
        c += 1;
    }
}

/// The texts of a class of characters, range by range.
pub fn expand_class(ranges: &Vec<(char, char)>) -> (r: Vec<String>)
    ensures
        texts(r@) == class_texts(ranges@),
{
    let mut r: Vec<String> = Vec::new();
    let mut i: usize = 0;
    while i < ranges.len()
        invariant
            i <= ranges@.len(),
            texts(r@) == class_texts(ranges@.take(i as int)),
        decreases ranges@.len() - i,
    {
        let (lo, hi) = ranges[i];
        push_kept_range(lo, hi, &mut r);
        proof {
            assert(ranges@.take(i + 1).drop_last() =~= ranges@.take(i as int));
        }
        i += 1;
    }
    assert(ranges@.take(i as int) =~= ranges@);
    r
}

/// The texts of `l` followed by each text of `right`.
pub open spec fn row(l: Seq<char>, right: Seq<Seq<char>>) -> Seq<Seq<char>> {
    right.map_values(|x: Seq<char>| l + x)
}

/// Every text of `left` followed by every text of `right`, `left` varying slowest.
pub fn concat_all(left: &Vec<String>, right: &Vec<String>) -> (r: Vec<String>)
    ensures
        texts(r@) == concat_texts(texts(left@), texts(right@)),
{
    let mut r: Vec<String> = Vec::new();
    let mut i: usize = 0;
    while i < left.len()
        invariant
            i <= left@.len(),
            texts(r@) == concat_texts(texts(left@.take(i as int)), texts(right@)),
        decreases left@.len() - i,
    {
        let ghost before = texts(r@);
        let mut j: usize = 0;
        while j < right.len()
            invariant
                i < left@.len(),
                j <= right@.len(),
                texts(r@) == before + row(left@[i as int]@, texts(right@.take(j as int))),
            decreases right@.len() - j,
        {
            let mut t = left[i].clone();
            t.append(right[j].as_str());
            let ghost mid = r@;
            r.push(t);
            proof {
                assert(texts(r@) =~= texts(mid).push(t@));
                assert(row(left@[i as int]@, texts(right@.take(j + 1))) =~= row(
                    left@[i as int]@,
                    texts(right@.take(j as int)),
                ).push(left@[i as int]@ + right@[j as int]@));
            }
            j += 1;
        }
        proof {
            assert(right@.take(j as int) =~= right@);
            let f = |x: Seq<char>| row(x, texts(right@));
            assert(texts(left@.take(i + 1)).map_values(f) =~= texts(left@.take(i as int)).map_values(
                f,
            ).push(row(left@[i as int]@, texts(right@))));
            texts(left@.take(i as int)).map_values(f).lemma_flatten_push(
                row(left@[i as int]@, texts(right@)),
            );
        }
        i += 1;
    }
    assert(left@.take(i as int) =~= left@);
    r
}

/// The texts of `sub` repeated each number of times from `lo` to `hi`, fewest first.
pub fn expand_repetition(sub: &Vec<String>, lo: u32, hi: u32) -> (r: Vec<String>)
    ensures
        texts(r@) == repetition_texts(texts(sub@), lo as int, hi as int),
{
    let mut r: Vec<String> = Vec::new();
    if hi < lo {
        return r;
    }
    let mut i: u32 = lo;
    loop
        invariant
            lo <= i <= hi,
            texts(r@) == repetition_texts(texts(sub@), lo as int, i - 1),
        decreases hi - i,
    {
        let combos = products(sub, i);
        let ghost before = texts(r@);
        let mut k: usize = 0;
        while k < combos.len()
            invariant
                k <= combos@.len(),
                nested_texts(combos@) == cartesian_power(texts(sub@), i as nat),
                texts(r@) == before + flat_each(nested_texts(combos@).take(k as int)),
            decreases combos@.len() - k,
        {
            let t = join_all(&combos[k]);
            let ghost mid = r@;
            r.push(t);
            proof {
                assert(texts(r@) =~= texts(mid).push(t@));
                assert(flat_each(nested_texts(combos@).take(k + 1)) =~= flat_each(
                    nested_texts(combos@).take(k as int),
                ).push(t@));
            }
            k += 1;
        }
        proof {
            assert(nested_texts(combos@).take(k as int) =~= nested_texts(combos@));
        }
        if i == hi {
            return r;
        }
        i += 1;
    }
}

proof fn lemma_concat_none(parts: Seq<RegexNode>, k: int, max: u32)
    requires
        0 <= k <= parts.len(),
        concat_expansion(parts.take(k), max) is None,
    ensures
        concat_expansion(parts, max) is None,
    decreases parts.len() - k,
{
    if k == parts.len() {
        assert(parts.take(k) =~= parts);
    } else {
        assert(parts.take(k + 1).drop_last() =~= parts.take(k));
        lemma_concat_none(parts, k + 1, max);
    }
}

/// All the texts the expression `node` stands for, in order, or `None` if it holds a
/// construct the expansion does not support; a repetition without upper bound
/// repeats at most `max` times.
pub fn expand(node: &RegexNode, max: u32) -> (r: Option<Vec<String>>)
    ensures
        match expansion(*node, max) {
            None => r is None,
            Some(t) => r is Some && texts(r->0@) == t,
        },
    decreases node,
{
    match node {
        RegexNode::Literal(s) => {
            let mut r: Vec<String> = Vec::new();
            r.push(s.clone());
            assert(texts(r@) =~= seq![s@]);
            Some(r)
        },
        RegexNode::Class(ranges) => Some(expand_class(ranges)),
        RegexNode::Repetition { min, max: top, sub } => {
            let inner = match expand(sub, max) {
                Some(v) => v,
                None => return None,
            };
            let hi: u32 = match top {
                Some(t) => *t,
                None => max,
            };
            Some(expand_repetition(&inner, *min, hi))
        },
        RegexNode::Concat(parts) => {
            let mut r: Vec<String> = Vec::new();
            let mut i: usize = 0;
            assert(parts@.take(0) =~= seq![]);
            while i < parts.len()
                invariant
                    i <= parts@.len(),
                    *node == RegexNode::Concat(*parts),
                    concat_expansion(parts@.take(i as int), max) == Some(texts(r@)),
                decreases parts@.len() - i,
            {
                assert(parts@.take(i + 1).drop_last() =~= parts@.take(i as int));
                assert(decreases_to!(*node => *parts));
                assert(decreases_to!(*parts => parts@));
                assert(decreases_to!(parts@ => parts@[i as int]));
                let part = match expand(&parts[i], max) {
                    Some(v) => v,
                    None => {
                        proof {
                            lemma_concat_none(parts@, i + 1, max);
                        }
                        return None;
                    },
                };
                if r.len() == 0 {
                    r = part;
                } else {
                    r = concat_all(&r, &part);
                }
                i += 1;
            }
            assert(parts@.take(i as int) =~= parts@);
            Some(r)
        },
        RegexNode::Unsupported => None,
    }
}

/// The pattern of a regular expression literal: its text without the enclosing
/// backticks.
pub open spec fn regex_pattern(text: Seq<char>) -> Seq<char> {
    let a = if text.len() > 0 && text[0] == '`' {
        text.drop_first()
    } else {
        text
    };
    if a.len() > 0 && a.last() == '`' {
        a.drop_last()
    } else {
        a
    }
}

/// The pattern of the literal `text`.
fn pattern_of(text: &String) -> (r: String)
    ensures
        r@ == regex_pattern(text@),
{
    let cs = chars_of(text.as_str());
    let mut start: usize = 0;
    let mut end: usize = cs.len();
    if end > 0 && cs[0] == '`' {
        start = 1;
    }
    if end > start && cs[end - 1] == '`' {
        end = end - 1;
    }
    let mut kept: Vec<char> = Vec::new();
    let mut i: usize = start;
    while i < end
        invariant
            start <= i <= end <= cs@.len(),
            kept@ == cs@.subrange(start as int, i as int),
        decreases end - i,
    {
        kept.push(cs[i]);
        i += 1;
    }
    let r = string_from(kept.as_slice());
    proof {
        let a = if cs@.len() > 0 && cs@[0] == '`' {
            cs@.drop_first()
        } else {
            cs@
        };
        assert(a =~= cs@.subrange(start as int, cs@.len() as int));
        if a.len() > 0 && a.last() == '`' {
            assert(a.drop_last() =~= kept@);
        } else {
            assert(a =~= kept@);
        }
    }
    r
}

/// The texts of the regular expression literal whose text is `text`, or nothing if
/// its pattern does not parse or holds a construct the expansion does not support.
pub open spec fn regex_texts(text: Seq<char>, max: u32) -> Option<Seq<Seq<char>>> {
    match regex_syntax_tree(regex_pattern(text)) {
        None => None,
        Some(node) => expansion(node, max),
    }
}

/// All the texts the regular expression literal `token` stands for, in order; a
/// repetition without upper bound repeats at most `max` times. A pattern that does
/// not parse, or holds a construct the expansion does not support, is a
/// `RegexError` about `token`.
pub fn parse(token: &Token, max: u32) -> (r: Result<Vec<String>, ParserError>)
    requires
        token.token_type is RegexLiteral,
    ensures
        match regex_texts(token.token_type->RegexLiteral_value@, max) {
            None => r == Err::<Vec<String>, ParserError>(
                ParserError { error_type: ParserErrorType::RegexError, token: *token },
            ),
            Some(t) => r is Ok && texts(r->Ok_0@) == t,
        },
{
    let value = match &token.token_type {
        TokenType::RegexLiteral { value } => value,
        _ => {
            return Err(ParserError::new(ParserErrorType::RegexError, token.clone()));
        },
    };
    let pattern = pattern_of(value);
    match parse_tree(pattern.as_str()) {
        None => Err(ParserError::new(ParserErrorType::RegexError, token.clone())),
        Some(node) => match expand(&node, max) {
            None => Err(ParserError::new(ParserErrorType::RegexError, token.clone())),
            Some(texts) => Ok(texts),
        },
    }
}

} // verus!
