//! Operations on text, stated over its characters.
//!
//! Every function here takes and returns ordinary strings; its contract speaks
//! of the string's view, the sequence of its characters.

use vstd::prelude::*;
use vstd::relations::{sorted_by, total_ordering};
use vstd::seq_lib::{lemma_multiset_commutative, lemma_sorted_unique};
use vstd::std_specs::iter::IteratorSpec;

verus! {

/// The characters of `s`, in order.
pub fn chars_of(s: &str) -> (v: Vec<char>)
    ensures
        v@ == s@,
{
    let mut v: Vec<char> = Vec::new();
    let chars = s.chars();
    for c in it: chars
        invariant
            v@ == it.seq().take(it.index() as int),
            it.seq() == s@,
    {
        v.push(c);
    }
    v
}

/// Whether `needle` stands in `s` at position `at`.
pub open spec fn occurs_at(s: Seq<char>, at: int, needle: Seq<char>) -> bool {
    0 <= at && at + needle.len() <= s.len() && s.subrange(at, at + needle.len()) == needle
}

fn matches_at(s: &Vec<char>, at: usize, needle: &Vec<char>) -> (b: bool)
    requires
        at <= s.len(),
    ensures
        b == occurs_at(s@, at as int, needle@),
{
    if needle.len() > s.len() - at {
        return false;
    }
    let mut i: usize = 0;
    while i < needle.len()
        invariant
            at + needle.len() <= s.len(),
            i <= needle.len(),
            forall|j: int| 0 <= j < i ==> s@[at + j] == needle@[j],
        decreases needle.len() - i,
    {
        if s[at + i] != needle[i] {
            assert(s@.subrange(at as int, at + needle.len())[i as int] != needle@[i as int]);
            return false;
        }
        i += 1;
    }
    assert(s@.subrange(at as int, at + needle.len()) =~= needle@);
    true
}

/// Whether the two strings hold the same characters.
pub fn text_eq(a: &str, b: &str) -> (r: bool)
    ensures
        r == (a@ == b@),
{
    let x = chars_of(a);
    let y = chars_of(b);
    if x.len() != y.len() {
        return false;
    }
    let r = matches_at(&x, 0, &y);
    assert(x@.subrange(0, x@.len() as int) =~= x@);
    r
}

/// Whether `s` begins with `prefix`.
pub fn starts_with(s: &str, prefix: &str) -> (r: bool)
    ensures
        r == prefix@.is_prefix_of(s@),
{
    let x = chars_of(s);
    let p = chars_of(prefix);
    matches_at(&x, 0, &p)
}

/// Whether `s` ends with `suffix`.
pub fn ends_with(s: &str, suffix: &str) -> (r: bool)
    ensures
        r == suffix@.is_suffix_of(s@),
{
    let x = chars_of(s);
    let p = chars_of(suffix);
    if p.len() > x.len() {
        return false;
    }
    matches_at(&x, x.len() - p.len(), &p)
}

/// The code point of `c`, with the upper-case ASCII letters folded onto the
/// lower-case ones.
pub open spec fn ascii_fold(c: char) -> int {
    if 0x41 <= c as int <= 0x5A {
        c as int + 0x20
    } else {
        c as int
    }
}

/// Equality of two texts up to the case of ASCII letters.
pub open spec fn same_ignoring_ascii_case(a: Seq<char>, b: Seq<char>) -> bool {
    &&& a.len() == b.len()
    &&& forall|i: int| 0 <= i < a.len() ==> ascii_fold(a[i]) == ascii_fold(b[i])
}

fn fold_char(c: char) -> (n: u32)
    ensures
        n == ascii_fold(c),
{
    let n: u32 = c as u32;
    if 0x41 <= n && n <= 0x5A {
        n + 0x20
    } else {
        n
    }
}

/// Whether the two strings are equal up to the case of ASCII letters.
pub fn eq_ignore_ascii_case(a: &str, b: &str) -> (r: bool)
    ensures
        r == same_ignoring_ascii_case(a@, b@),
{
    let x = chars_of(a);
    let y = chars_of(b);
    if x.len() != y.len() {
        return false;
    }
    let mut i: usize = 0;
    while i < x.len()
        invariant
            x@ == a@,
            y@ == b@,
            x.len() == y.len(),
            i <= x.len(),
            forall|j: int| 0 <= j < i ==> ascii_fold(x@[j]) == ascii_fold(y@[j]),
        decreases x.len() - i,
    {
        if fold_char(x[i]) != fold_char(y[i]) {
            assert(ascii_fold(x@[i as int]) != ascii_fold(y@[i as int]));
            return false;
        }
        i += 1;
    }
    true
}

/// The characters with the Unicode property `White_Space`.
pub open spec fn is_whitespace(c: char) -> bool {
    let n = c as int;
    ||| 0x09 <= n <= 0x0D
    ||| n == 0x20
    ||| n == 0x85
    ||| n == 0xA0
    ||| n == 0x1680
    ||| 0x2000 <= n <= 0x200A
    ||| n == 0x2028
    ||| n == 0x2029
    ||| n == 0x202F
    ||| n == 0x205F
    ||| n == 0x3000
}

fn whitespace_char(c: char) -> (b: bool)
    ensures
        b == is_whitespace(c),
{
    let n: u32 = c as u32;
    (0x09 <= n && n <= 0x0D) || n == 0x20 || n == 0x85 || n == 0xA0 || n == 0x1680 || (0x2000 <= n
        && n <= 0x200A) || n == 0x2028 || n == 0x2029 || n == 0x202F || n == 0x205F || n == 0x3000
}

/// `s` without the white space at its end.
pub open spec fn trimmed_end(s: Seq<char>) -> Seq<char>
    decreases s.len(),
{
    if s.len() > 0 && is_whitespace(s.last()) {
        trimmed_end(s.drop_last())
    } else {
        s
    }
}

/// `s` without the white space at its start.
pub open spec fn trimmed_start(s: Seq<char>) -> Seq<char>
    decreases s.len(),
{
    if s.len() > 0 && is_whitespace(s.first()) {
        trimmed_start(s.drop_first())
    } else {
        s
    }
}

/// `s` without the white space at either end.
pub open spec fn trimmed(s: Seq<char>) -> Seq<char> {
    trimmed_start(trimmed_end(s))
}

fn trimmed_end_bound(chars: &Vec<char>) -> (end: usize)
    ensures
        end <= chars.len(),
        trimmed_end(chars@) == chars@.take(end as int),
{
    let mut end: usize = chars.len();
    assert(chars@.take(end as int) =~= chars@);
    while end > 0 && whitespace_char(chars[end - 1])
        invariant
            end <= chars.len(),
            trimmed_end(chars@) == trimmed_end(chars@.take(end as int)),
        decreases end,
    {
        assert(chars@.take(end as int).drop_last() =~= chars@.take(end - 1));
        end -= 1;
    }
    end
}

/// `s` without the white space at its end.
pub fn trim_end(s: &str) -> (r: &str)
    ensures
        r@ == trimmed_end(s@),
{
    let chars = chars_of(s);
    let end = trimmed_end_bound(&chars);
    s.substring_char(0, end)
}

/// `s` without the white space at either end.
pub fn trim(s: &str) -> (r: &str)
    ensures
        r@ == trimmed(s@),
{
    let chars = chars_of(s);
    let end = trimmed_end_bound(&chars);
    let mut start: usize = 0;
    assert(chars@.subrange(0, end as int) =~= chars@.take(end as int));
    while start < end && whitespace_char(chars[start])
        invariant
            start <= end <= chars.len(),
            trimmed(chars@) == trimmed_start(chars@.subrange(start as int, end as int)),
        decreases end - start,
    {
        assert(chars@.subrange(start as int, end as int).drop_first() =~= chars@.subrange(
            start + 1,
            end as int,
        ));
        start += 1;
    }
    s.substring_char(start, end)
}

/// `s` with every occurrence of `needle` taken out, found from left to right
/// and without overlap. An empty `needle` takes nothing out.
pub open spec fn without(s: Seq<char>, needle: Seq<char>) -> Seq<char>
    decreases s.len(),
{
    if s.len() == 0 {
        s
    } else if needle.len() > 0 && occurs_at(s, 0, needle) {
        without(s.skip(needle.len() as int), needle)
    } else {
        seq![s[0]] + without(s.skip(1), needle)
    }
}

/// `s` with every occurrence of `needle` taken out.
pub fn remove_all(s: &str, needle: &str) -> (r: String)
    ensures
        r@ == without(s@, needle@),
{
    let chars = chars_of(s);
    let pat = chars_of(needle);
    let mut out = String::from_str("");
    proof {
        reveal_strlit("");
    }
    if pat.len() == 0 {
        assert(without(chars@, pat@) == chars@) by {
            lemma_without_empty_needle(chars@, pat@);
        }
        out.append(s);
        assert(out@ =~= s@);
        return out;
    }
    let mut kept_from: usize = 0;
    let mut i: usize = 0;
    assert(chars@.skip(0) =~= chars@);
    while i < chars.len()
        invariant
            pat.len() > 0,
            chars@ == s@,
            kept_from <= i <= chars.len(),
            without(chars@, pat@) == out@ + chars@.subrange(kept_from as int, i as int) + without(
                chars@.skip(i as int),
                pat@,
            ),
        decreases chars.len() - i,
    {
        let ghost rest = chars@.skip(i as int);
        if matches_at(&chars, i, &pat) {
            assert(rest.subrange(0, pat@.len() as int) =~= chars@.subrange(
                i as int,
                i + pat@.len(),
            ));
            assert(rest.skip(pat@.len() as int) =~= chars@.skip(i + pat@.len()));
            out.append(s.substring_char(kept_from, i));
            i += pat.len();
            kept_from = i;
            assert(chars@.subrange(kept_from as int, i as int) =~= Seq::<char>::empty());
        } else {
            proof {
                if i + pat@.len() <= chars@.len() {
                    assert(rest.subrange(0, pat@.len() as int) =~= chars@.subrange(
                        i as int,
                        i + pat@.len(),
                    ));
                }
            }
            assert(rest.skip(1) =~= chars@.skip(i + 1));
            assert(chars@.subrange(kept_from as int, i as int) + seq![rest[0]]
                =~= chars@.subrange(kept_from as int, i + 1));
            i += 1;
        }
    }
    out.append(s.substring_char(kept_from, i));
    assert(chars@.skip(i as int) =~= Seq::<char>::empty());
    out
}

proof fn lemma_without_empty_needle(s: Seq<char>, needle: Seq<char>)
    requires
        needle.len() == 0,
    ensures
        without(s, needle) == s,
    decreases s.len(),
{
    if s.len() > 0 {
        lemma_without_empty_needle(s.skip(1), needle);
        assert(seq![s[0]] + s.skip(1) =~= s);
    }
}

/// The part of `s` before the first `stop`; all of `s` where it holds none.
pub open spec fn before_first(s: Seq<char>, stop: char) -> Seq<char>
    decreases s.len(),
{
    if s.len() == 0 || s[0] == stop {
        Seq::empty()
    } else {
        seq![s[0]] + before_first(s.skip(1), stop)
    }
}

proof fn lemma_before_first(s: Seq<char>, stop: char, i: int)
    requires
        0 <= i <= s.len(),
        forall|j: int| 0 <= j < i ==> s[j] != stop,
        i == s.len() || s[i] == stop,
    ensures
        before_first(s, stop) == s.take(i),
    decreases s.len(),
{
    if i == 0 {
        assert(s.take(0) =~= Seq::<char>::empty());
    } else {
        let rest = s.skip(1);
        assert forall|j: int| 0 <= j < i - 1 implies rest[j] != stop by {
            assert(rest[j] == s[j + 1]);
        }
        lemma_before_first(rest, stop, i - 1);
        assert(seq![s[0]] + rest.take(i - 1) =~= s.take(i));
    }
}

/// The part of `s` before its first `stop`, or `None` where `s` holds none.
pub fn split_before_first(s: &str, stop: char) -> (r: Option<&str>)
    ensures
        r is Some <==> s@.contains(stop),
        r matches Some(head) ==> head@ == before_first(s@, stop),
{
    let chars = chars_of(s);
    let mut i: usize = 0;
    while i < chars.len() && chars[i] != stop
        invariant
            i <= chars.len(),
            forall|j: int| 0 <= j < i ==> chars@[j] != stop,
        decreases chars.len() - i,
    {
        i += 1;
    }
    if i < chars.len() {
        proof {
            lemma_before_first(chars@, stop, i as int);
            assert(chars@.subrange(0, i as int) =~= chars@.take(i as int));
            assert(chars@[i as int] == stop);
        }
        Some(s.substring_char(0, i))
    } else {
        None
    }
}

/// The order of texts: character by character, by code point; a text that is
/// the start of another comes first.
pub open spec fn lex_le(a: Seq<char>, b: Seq<char>) -> bool
    decreases a.len(),
{
    if a.len() == 0 {
        true
    } else if b.len() == 0 {
        false
    } else if a[0] != b[0] {
        (a[0] as int) < (b[0] as int)
    } else {
        lex_le(a.skip(1), b.skip(1))
    }
}

/// Whether `a` comes before `b`, or equals it.
pub fn text_le(a: &str, b: &str) -> (r: bool)
    ensures
        r == lex_le(a@, b@),
{
    let x = chars_of(a);
    let y = chars_of(b);
    let mut i: usize = 0;
    assert(x@.skip(0) =~= x@ && y@.skip(0) =~= y@);
    while i < x.len() && i < y.len() && x[i] == y[i]
        invariant
            i <= x.len(),
            i <= y.len(),
            lex_le(x@, y@) == lex_le(x@.skip(i as int), y@.skip(i as int)),
        decreases x.len() - i,
    {
        assert(x@.skip(i as int).skip(1) =~= x@.skip(i + 1));
        assert(y@.skip(i as int).skip(1) =~= y@.skip(i + 1));
        i += 1;
    }
    if i == x.len() {
        true
    } else if i == y.len() {
        false
    } else {
        assert(x@.skip(i as int)[0] == x@[i as int]);
        assert(y@.skip(i as int)[0] == y@[i as int]);
        x[i] < y[i]
    }
}

proof fn lemma_lex_le_reflexive(a: Seq<char>)
    ensures
        lex_le(a, a),
    decreases a.len(),
{
    if a.len() > 0 {
        lemma_lex_le_reflexive(a.skip(1));
    }
}

proof fn lemma_lex_le_antisymmetric(a: Seq<char>, b: Seq<char>)
    requires
        lex_le(a, b),
        lex_le(b, a),
    ensures
        a == b,
    decreases a.len(),
{
    if a.len() == 0 || b.len() == 0 {
        assert(a =~= b);
    } else {
        assert(a[0] == b[0]);
        lemma_lex_le_antisymmetric(a.skip(1), b.skip(1));
        assert(a =~= seq![a[0]] + a.skip(1));
        assert(b =~= seq![b[0]] + b.skip(1));
    }
}

proof fn lemma_lex_le_transitive(a: Seq<char>, b: Seq<char>, c: Seq<char>)
    requires
        lex_le(a, b),
        lex_le(b, c),
    ensures
        lex_le(a, c),
    decreases a.len(),
{
    if a.len() > 0 && b.len() > 0 && c.len() > 0 && a[0] == b[0] && b[0] == c[0] {
        lemma_lex_le_transitive(a.skip(1), b.skip(1), c.skip(1));
    }
}

proof fn lemma_lex_le_connected(a: Seq<char>, b: Seq<char>)
    ensures
        lex_le(a, b) || lex_le(b, a),
    decreases a.len(),
{
    if a.len() > 0 && b.len() > 0 {
        if a[0] == b[0] {
            lemma_lex_le_connected(a.skip(1), b.skip(1));
        } else {
            assert(a[0] as int != b[0] as int);
        }
    }
}

/// The order of texts, as a relation.
pub open spec fn text_order() -> spec_fn(Seq<char>, Seq<char>) -> bool {
    |a: Seq<char>, b: Seq<char>| lex_le(a, b)
}

/// The order of texts is a total order.
pub proof fn lemma_text_order_is_total()
    ensures
        total_ordering(text_order()),
{
    let leq = text_order();
    assert forall|a: Seq<char>| #[trigger] leq(a, a) by {
        lemma_lex_le_reflexive(a);
    }
    assert forall|a: Seq<char>, b: Seq<char>| #[trigger] leq(a, b) && #[trigger] leq(b, a) implies a
        == b by {
        lemma_lex_le_antisymmetric(a, b);
    }
    assert forall|a: Seq<char>, b: Seq<char>, c: Seq<char>| #[trigger]
        leq(a, b) && #[trigger] leq(b, c) implies leq(a, c) by {
        lemma_lex_le_transitive(a, b, c);
    }
    assert forall|a: Seq<char>, b: Seq<char>| #[trigger] leq(a, b) || #[trigger] leq(b, a) by {
        lemma_lex_le_connected(a, b);
    }
}

/// The characters of each of the strings.
pub open spec fn text_views(texts: Seq<String>) -> Seq<Seq<char>> {
    texts.map_values(|s: String| s@)
}

/// The strings of `texts` in the order of texts; equal ones stay as they came.
pub fn sort_texts(texts: Vec<String>) -> (sorted: Vec<String>)
    ensures
        text_views(sorted@) == text_views(texts@).sort_by(text_order()),
        sorted_by(text_views(sorted@), text_order()),
        text_views(sorted@).to_multiset() == text_views(texts@).to_multiset(),
{
    let ghost given = texts@;
    let ghost all = text_views(texts@);
    let mut sorted: Vec<String> = Vec::new();
    assert(all.take(0) =~= Seq::<Seq<char>>::empty());
    assert(text_views(sorted@) =~= Seq::<Seq<char>>::empty());
    for text in it: texts
        invariant
            it.seq() == given,
            all == text_views(given),
            sorted_by(text_views(sorted@), text_order()),
            text_views(sorted@).to_multiset() == all.take(it.index() as int).to_multiset(),
    {
        let ghost i = it.index() as int;
        let ghost before = text_views(sorted@);
        let mut at: usize = 0;
        while at < sorted.len() && text_le(sorted[at].as_str(), text.as_str())
            invariant
                at <= sorted.len(),
                before == text_views(sorted@),
                forall|j: int| 0 <= j < at ==> lex_le(before[j], text@),
            decreases sorted.len() - at,
        {
            at += 1;
        }
        sorted.insert(at, text);
        proof {
            let after = text_views(sorted@);
            let x = text@;
            assert(after =~= before.take(at as int).push(x) + before.skip(at as int));
            assert(before =~= before.take(at as int) + before.skip(at as int));
            lemma_multiset_commutative(before.take(at as int), before.skip(at as int));
            lemma_multiset_commutative(before.take(at as int).push(x), before.skip(at as int));
            vstd::seq_lib::to_multiset_build(before.take(at as int), x);
            assert(all.take(i + 1) =~= all.take(i).push(x));
            vstd::seq_lib::to_multiset_build(all.take(i), x);
            assert(after.to_multiset() =~= all.take(i + 1).to_multiset());
            assert forall|j: int, k: int| 0 <= j < k < after.len() implies #[trigger] lex_le(
                after[j],
                after[k],
            ) by {
                if k < at {
                    assert(text_order()(before[j], before[k]));
                } else if k == at {
                } else if j == at {
                    assert(!lex_le(before[at as int], x));
                    lemma_lex_le_connected(before[at as int], x);
                    if k - 1 > at {
                        assert(text_order()(before[at as int], before[k - 1]));
                        lemma_lex_le_transitive(x, before[at as int], before[k - 1]);
                    }
                } else if j < at {
                    assert(text_order()(before[j], before[k - 1]));
                } else {
                    assert(text_order()(before[j - 1], before[k - 1]));
                }
            }
        }
    }
    proof {
        assert(all.take(all.len() as int) =~= all);
        lemma_text_order_is_total();
        all.lemma_sort_by_ensures(text_order());
        lemma_sorted_unique(text_views(sorted@), all.sort_by(text_order()), text_order());
    }
    sorted
}

/// The texts of `lines` one after the other, with `sep` between each two.
pub open spec fn joined(lines: Seq<Seq<char>>, sep: Seq<char>) -> Seq<char>
    decreases lines.len(),
{
    if lines.len() == 0 {
        Seq::empty()
    } else if lines.len() == 1 {
        lines[0]
    } else {
        joined(lines.drop_last(), sep) + sep + lines.last()
    }
}

/// The strings of `lines` one after the other, with `sep` between each two.
pub fn join_texts(lines: &Vec<String>, sep: &str) -> (r: String)
    ensures
        r@ == joined(text_views(lines@), sep@),
{
    let mut out = String::from_str("");
    proof {
        reveal_strlit("");
    }
    let ghost all = text_views(lines@);
    let mut i: usize = 0;
    assert(all.take(0) =~= Seq::<Seq<char>>::empty());
    while i < lines.len()
        invariant
            i <= lines.len(),
            all == text_views(lines@),
            out@ == joined(all.take(i as int), sep@),
        decreases lines.len() - i,
    {
        assert(all.take(i + 1).drop_last() =~= all.take(i as int));
        assert(all.take(i + 1).last() == lines@[i as int]@);
        if i > 0 {
            out.append(sep);
        }
        out.append(lines[i].as_str());
        proof {
            if i == 0 {
                assert(out@ =~= lines@[0]@);
            }
        }
        i += 1;
    }
    assert(all.take(all.len() as int) =~= all);
    out
}

} // verus!
