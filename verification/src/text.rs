//! Strings as sequences of characters.
//!
//! Every contract in this crate speaks of a string by its view, a
//! `Seq<char>`. The functions here move between strings and character
//! vectors, and carry the handful of comparisons and searches the other
//! modules share.
use vstd::prelude::*;

pub mod laws;

verus! {

broadcast use vstd::string::group_string_axioms;

/// `String::push` appends one character.
pub assume_specification[ String::push ](s: &mut String, c: char)
    ensures
        final(s)@ == old(s)@.push(c),
;

/// The characters of `s`, in order.
pub fn chars_of(s: &str) -> (out: Vec<char>)
    ensures
        out@ == s@,
{
    let mut out: Vec<char> = Vec::new();
    for c in it: s.chars()
        invariant
            it.seq() == s@,
            out@ == s@.take(it.index() as int),
    {
        out.push(c);
        assert(s@.take(it.index() as int + 1) == s@.take(it.index() as int).push(c));
    }
    assert(s@.take(s@.len() as int) == s@);
    out
}

/// The string made of `chars`.
pub fn string_of(chars: &[char]) -> (out: String)
    ensures
        out@ == chars@,
{
    substring(chars, 0, chars.len())
}

/// The string made of the characters from `from` up to, not including, `to`.
pub fn substring(chars: &[char], from: usize, to: usize) -> (out: String)
    requires
        from <= to <= chars@.len(),
    ensures
        out@ == chars@.subrange(from as int, to as int),
{
    let mut out = String::new();
    let mut i: usize = from;
    while i < to
        invariant
            from <= i <= to <= chars@.len(),
            out@ == chars@.subrange(from as int, i as int),
        decreases to - i,
    {
        out.push(chars[i]);
        assert(chars@.subrange(from as int, i + 1) == chars@.subrange(from as int, i as int).push(
            chars@[i as int],
        ));
        i += 1;
    }
    out
}

/// Whether two strings hold the same characters.
pub fn same_text(a: &str, b: &str) -> (same: bool)
    ensures
        same == (a@ == b@),
{
    let mut left = a.chars();
    let mut right = b.chars();
    let ghost mut n: int = 0;
    loop
        invariant
            0 <= n <= a@.len(),
            n <= b@.len(),
            vstd::std_specs::iter::IteratorSpec::remaining(&left) == a@.skip(n),
            vstd::std_specs::iter::IteratorSpec::remaining(&right) == b@.skip(n),
            a@.take(n) == b@.take(n),
        decreases a@.len() - n,
    {
        let l = left.next();
        let r = right.next();
        match (l, r) {
            (Some(x), Some(y)) => {
                if x != y {
                    assert(a@[n] == x && b@[n] == y);
                    return false;
                }
                proof {
                    assert(a@.take(n + 1) == a@.take(n).push(x));
                    assert(b@.take(n + 1) == b@.take(n).push(y));
                    assert(a@.skip(n).drop_first() == a@.skip(n + 1));
                    assert(b@.skip(n).drop_first() == b@.skip(n + 1));
                    n = n + 1;
                }
            },
            (None, None) => {
                assert(a@.take(n) == a@ && b@.take(n) == b@);
                return true;
            },
            _ => {
                assert(a@.len() != b@.len());
                return false;
            },
        }
    }
}


/// The characters behind the last one that `set` holds; all of them where
/// none is in `set`.
pub open spec fn after_last(s: Seq<char>, set: Seq<char>) -> Seq<char>
    decreases s.len(),
{
    if s.len() == 0 || set.contains(s.last()) {
        Seq::empty()
    } else {
        after_last(s.drop_last(), set).push(s.last())
    }
}

/// The characters before the first one that `set` holds; all of them where
/// none is in `set`.
pub open spec fn before_first(s: Seq<char>, set: Seq<char>) -> Seq<char>
    decreases s.len(),
{
    if s.len() == 0 || set.contains(s[0]) {
        Seq::empty()
    } else {
        seq![s[0]] + before_first(s.drop_first(), set)
    }
}

/// `s` without the characters of `set` at its end.
pub open spec fn trim_end(s: Seq<char>, set: Seq<char>) -> Seq<char>
    decreases s.len(),
{
    if s.len() > 0 && set.contains(s.last()) {
        trim_end(s.drop_last(), set)
    } else {
        s
    }
}

/// `s` without the characters of `set` at its start.
pub open spec fn trim_start(s: Seq<char>, set: Seq<char>) -> Seq<char>
    decreases s.len(),
{
    if s.len() > 0 && set.contains(s[0]) {
        trim_start(s.drop_first(), set)
    } else {
        s
    }
}

/// Whether `set` holds `c`.
pub fn is_one_of(c: char, set: &[char]) -> (found: bool)
    ensures
        found == set@.contains(c),
{
    let mut i: usize = 0;
    while i < set.len()
        invariant
            i <= set@.len(),
            forall|k: int| 0 <= k < i ==> set@[k] != c,
        decreases set@.len() - i,
    {
        if set[i] == c {
            assert(set@[i as int] == c);
            return true;
        }
        i += 1;
    }
    false
}

/// Computes [`after_last`].
pub fn slice_after_last<'a>(s: &'a [char], set: &[char]) -> (rest: &'a [char])
    ensures
        rest@ == after_last(s@, set@),
{
    let n: usize = s.len();
    let mut i: usize = n;
    assert(s@.subrange(0, n as int) =~= s@);
    while i > 0
        invariant_except_break
            i <= n,
            n == s@.len(),
            after_last(s@, set@) == after_last(s@.subrange(0, i as int), set@) + s@.subrange(
                i as int,
                n as int,
            ),
        ensures
            i <= n,
            after_last(s@, set@) == s@.subrange(i as int, n as int),
        decreases i,
    {
        let ghost head = s@.subrange(0, i as int);
        assert(head.last() == s@[i - 1]);
        if is_one_of(s[i - 1], set) {
            assert(after_last(head, set@) + s@.subrange(i as int, n as int) =~= s@.subrange(
                i as int,
                n as int,
            ));
            break;
        }
        assert(head.drop_last() =~= s@.subrange(0, i - 1));
        assert(after_last(head, set@) + s@.subrange(i as int, n as int) =~= after_last(
            s@.subrange(0, i - 1),
            set@,
        ) + s@.subrange(i - 1, n as int));
        i -= 1;
        if i == 0 {
            assert(after_last(s@.subrange(0, 0), set@) + s@.subrange(0, n as int) =~= s@.subrange(
                0,
                n as int,
            ));
        }
    }
    vstd::slice::slice_subrange(s, i, n)
}

/// Computes [`before_first`].
pub fn slice_before_first<'a>(s: &'a [char], set: &[char]) -> (rest: &'a [char])
    ensures
        rest@ == before_first(s@, set@),
        rest@ == s@.take(rest@.len() as int),
        rest@.len() <= s@.len(),
        rest@.len() < s@.len() ==> set@.contains(s@[rest@.len() as int]),
{
    let n: usize = s.len();
    let mut i: usize = 0;
    assert(s@.subrange(0, n as int) =~= s@);
    while i < n
        invariant_except_break
            i <= n,
            n == s@.len(),
            before_first(s@, set@) == s@.take(i as int) + before_first(
                s@.subrange(i as int, n as int),
                set@,
            ),
        ensures
            i <= n,
            before_first(s@, set@) == s@.take(i as int),
            i < n ==> set@.contains(s@[i as int]),
        decreases n - i,
    {
        let ghost tail = s@.subrange(i as int, n as int);
        assert(tail[0] == s@[i as int]);
        if is_one_of(s[i], set) {
            assert(s@.take(i as int) + before_first(tail, set@) =~= s@.take(i as int));
            break;
        }
        assert(tail.drop_first() =~= s@.subrange(i + 1, n as int));
        assert(s@.take(i as int) + before_first(tail, set@) =~= s@.take(i + 1) + before_first(
            s@.subrange(i + 1, n as int),
            set@,
        ));
        i += 1;
        if i == n {
            assert(s@.take(n as int) + before_first(s@.subrange(n as int, n as int), set@)
                =~= s@.take(n as int));
        }
    }
    assert(s@.subrange(0, i as int) =~= s@.take(i as int));
    vstd::slice::slice_subrange(s, 0, i)
}

/// Computes [`trim_end`].
pub fn slice_trim_end<'a>(s: &'a [char], set: &[char]) -> (rest: &'a [char])
    ensures
        rest@ == trim_end(s@, set@),
{
    let mut i: usize = s.len();
    assert(s@.subrange(0, i as int) =~= s@);
    while i > 0
        invariant_except_break
            i <= s@.len(),
            trim_end(s@, set@) == trim_end(s@.subrange(0, i as int), set@),
        ensures
            i <= s@.len(),
            trim_end(s@, set@) == s@.subrange(0, i as int),
        decreases i,
    {
        assert(s@.subrange(0, i as int).last() == s@[i - 1]);
        if !is_one_of(s[i - 1], set) {
            break;
        }
        assert(s@.subrange(0, i as int).drop_last() =~= s@.subrange(0, i - 1));
        i -= 1;
    }
    vstd::slice::slice_subrange(s, 0, i)
}

/// Computes [`trim_start`].
pub fn slice_trim_start<'a>(s: &'a [char], set: &[char]) -> (rest: &'a [char])
    ensures
        rest@ == trim_start(s@, set@),
{
    let n: usize = s.len();
    let mut i: usize = 0;
    assert(s@.subrange(0, n as int) =~= s@);
    while i < n
        invariant_except_break
            i <= n,
            n == s@.len(),
            trim_start(s@, set@) == trim_start(s@.subrange(i as int, n as int), set@),
        ensures
            i <= n,
            trim_start(s@, set@) == s@.subrange(i as int, n as int),
        decreases n - i,
    {
        assert(s@.subrange(i as int, n as int)[0] == s@[i as int]);
        if !is_one_of(s[i], set) {
            break;
        }
        assert(s@.subrange(i as int, n as int).drop_first() =~= s@.subrange(i + 1, n as int));
        i += 1;
    }
    vstd::slice::slice_subrange(s, i, n)
}

/// Whether `part` stands in `s` from position `at` on.
pub open spec fn occurs_at(s: Seq<char>, part: Seq<char>, at: int) -> bool {
    0 <= at && at + part.len() <= s.len() && s.subrange(at, at + part.len()) == part
}

/// Whether `part` stands somewhere in `s`.
pub open spec fn occurs_in(s: Seq<char>, part: Seq<char>) -> bool {
    exists|at: int| #[trigger] occurs_at(s, part, at)
}

/// The first position at which `part` stands in `s`.
#[verifier::opaque]
pub open spec fn first_at(s: Seq<char>, part: Seq<char>) -> int {
    choose|at: int|
        occurs_at(s, part, at) && forall|k: int|
            0 <= k < at ==> !#[trigger] occurs_at(s, part, k)
}

/// The first position is the one before which there is none.
pub proof fn lemma_first_at(s: Seq<char>, part: Seq<char>, at: int)
    requires
        occurs_at(s, part, at),
        forall|k: int| 0 <= k < at ==> !#[trigger] occurs_at(s, part, k),
    ensures
        first_at(s, part) == at,
{
    reveal(first_at);
    let first = first_at(s, part);
    assert(occurs_at(s, part, first) && forall|k: int|
        0 <= k < first ==> !#[trigger] occurs_at(s, part, k));
    if first < at {
        assert(!occurs_at(s, part, first));
    } else if at < first {
        assert(!occurs_at(s, part, at));
    }
}

/// Where a part stands somewhere, there is a first position.
pub proof fn lemma_first_exists(s: Seq<char>, part: Seq<char>) -> (at: int)
    requires
        occurs_in(s, part),
    ensures
        at == first_at(s, part),
        occurs_at(s, part, at),
        forall|k: int| 0 <= k < at ==> !#[trigger] occurs_at(s, part, k),
{
    let some = choose|at: int| #[trigger] occurs_at(s, part, at);
    lemma_first_below(s, part, some)
}

proof fn lemma_first_below(s: Seq<char>, part: Seq<char>, bound: int) -> (at: int)
    requires
        occurs_at(s, part, bound),
    ensures
        at == first_at(s, part),
        occurs_at(s, part, at),
        forall|k: int| 0 <= k < at ==> !#[trigger] occurs_at(s, part, k),
    decreases bound,
{
    if exists|k: int| 0 <= k < bound && #[trigger] occurs_at(s, part, k) {
        let k = choose|k: int| 0 <= k < bound && #[trigger] occurs_at(s, part, k);
        lemma_first_below(s, part, k)
    } else {
        lemma_first_at(s, part, bound);
        bound
    }
}

/// Decides [`occurs_at`].
pub fn matches_at(s: &[char], part: &[char], at: usize) -> (found: bool)
    ensures
        found == occurs_at(s@, part@, at as int),
{
    if part.len() > s.len() || at > s.len() - part.len() {
        return false;
    }
    let n: usize = s.len();
    let mut i: usize = 0;
    while i < part.len()
        invariant
            i <= part@.len(),
            n == s@.len(),
            at + part@.len() <= n,
            s@.subrange(at as int, at + i) == part@.take(i as int),
        decreases part@.len() - i,
    {
        if s[at + i] != part[i] {
            assert(s@.subrange(at as int, at + part@.len())[i as int] == s@[at + i]);
            return false;
        }
        assert(s@.subrange(at as int, at + i + 1) =~= s@.subrange(at as int, at + i).push(
            s@[at + i],
        ));
        assert(part@.take(i + 1) =~= part@.take(i as int).push(part@[i as int]));
        i += 1;
    }
    assert(part@.take(part@.len() as int) =~= part@);
    true
}

/// The first position at which `part` stands in `s`.
pub fn find(s: &[char], part: &[char]) -> (at: Option<usize>)
    ensures
        at is Some <==> occurs_in(s@, part@),
        at matches Some(i) ==> i == first_at(s@, part@) && occurs_at(s@, part@, i as int)
            && forall|k: int| 0 <= k < i ==> !#[trigger] occurs_at(s@, part@, k),
{
    let mut i: usize = 0;
    while i < s.len()
        invariant
            i <= s@.len(),
            forall|k: int| 0 <= k < i ==> !#[trigger] occurs_at(s@, part@, k),
        decreases s@.len() - i,
    {
        if matches_at(s, part, i) {
            proof {
                lemma_first_at(s@, part@, i as int);
            }
            return Some(i);
        }
        i += 1;
    }
    if matches_at(s, part, i) {
        proof {
            lemma_first_at(s@, part@, i as int);
        }
        return Some(i);
    }
    assert forall|k: int| !#[trigger] occurs_at(s@, part@, k) by {}
    None
}

/// Whether `part` stands at the start of `s`.
pub fn begins_with(s: &[char], part: &[char]) -> (found: bool)
    ensures
        found == part@.is_prefix_of(s@),
{
    let found = matches_at(s, part, 0);
    assert(part@.len() <= s@.len() ==> s@.take(part@.len() as int) =~= s@.subrange(
        0,
        part@.len() as int,
    ));
    found
}

/// Whether `part` stands at the end of `s`.
pub fn finishes_with(s: &[char], part: &[char]) -> (found: bool)
    ensures
        found == part@.is_suffix_of(s@),
{
    if part.len() > s.len() {
        return false;
    }
    matches_at(s, part, s.len() - part.len())
}

/// Whether `a` comes before `b` in the order of code points, position by
/// position, a proper prefix first.
pub open spec fn text_before(a: Seq<char>, b: Seq<char>) -> bool
    decreases a.len(),
{
    if b.len() == 0 {
        false
    } else if a.len() == 0 {
        true
    } else if a[0] != b[0] {
        a[0] < b[0]
    } else {
        text_before(a.drop_first(), b.drop_first())
    }
}

/// No text comes before itself.
pub proof fn lemma_text_irreflexive(a: Seq<char>)
    ensures
        !text_before(a, a),
    decreases a.len(),
{
    if a.len() > 0 {
        lemma_text_irreflexive(a.drop_first());
    }
}

/// The order of texts is transitive.
pub proof fn lemma_text_transitive(a: Seq<char>, b: Seq<char>, c: Seq<char>)
    requires
        text_before(a, b),
        text_before(b, c),
    ensures
        text_before(a, c),
    decreases a.len(),
{
    if a.len() > 0 && a[0] == b[0] && b[0] == c[0] {
        lemma_text_transitive(a.drop_first(), b.drop_first(), c.drop_first());
    }
}

/// Of two different texts one comes before the other.
pub proof fn lemma_text_total(a: Seq<char>, b: Seq<char>)
    requires
        a != b,
    ensures
        text_before(a, b) || text_before(b, a),
    decreases a.len(),
{
    if a.len() == 0 {
        assert(b.len() > 0 || a =~= b);
    } else if b.len() > 0 && a[0] == b[0] {
        if a.drop_first() == b.drop_first() {
            assert(a =~= seq![a[0]] + a.drop_first());
            assert(b =~= seq![b[0]] + b.drop_first());
        }
        lemma_text_total(a.drop_first(), b.drop_first());
    }
}

/// Decides [`text_before`].
pub fn comes_before(a: &str, b: &str) -> (first: bool)
    ensures
        first == text_before(a@, b@),
{
    let mut left = a.chars();
    let mut right = b.chars();
    let ghost mut x = a@;
    let ghost mut y = b@;
    loop
        invariant
            vstd::std_specs::iter::IteratorSpec::remaining(&left) == x,
            vstd::std_specs::iter::IteratorSpec::remaining(&right) == y,
            text_before(a@, b@) == text_before(x, y),
        decreases x.len(),
    {
        let l = left.next();
        let r = right.next();
        match (l, r) {
            (Some(c), Some(d)) => {
                if c != d {
                    return c < d;
                }
                proof {
                    x = x.drop_first();
                    y = y.drop_first();
                }
            },
            (None, Some(_)) => {
                return true;
            },
            (_, None) => {
                return false;
            },
        }
    }
}

/// The lower case of a text, by the Unicode mapping that `str::to_lowercase`
/// applies.
pub uninterp spec fn lowercased(s: Seq<char>) -> Seq<char>;

/// `str::to_lowercase`: the lower case of `s`.
#[verifier::external_body]
pub(crate) fn lower(s: &str) -> (out: String)
    ensures
        out@ == lowercased(s@),
{
    s.to_lowercase()
}

/// The texts that a sequence of strings holds.
pub open spec fn texts(strings: Seq<String>) -> Seq<Seq<char>> {
    Seq::new(strings.len(), |i: int| strings[i]@)
}

/// A copy of a vector of strings.
pub fn copy_texts(strings: &Vec<String>) -> (out: Vec<String>)
    ensures
        texts(out@) == texts(strings@),
{
    let mut out: Vec<String> = Vec::new();
    let mut i: usize = 0;
    while i < strings.len()
        invariant
            i <= strings@.len(),
            texts(out@) == texts(strings@).take(i as int),
            out@.len() == i,
        decreases strings@.len() - i,
    {
        let ghost before = out@;
        out.push(strings[i].clone());
        assert(texts(out@) =~= texts(before).push(strings@[i as int]@));
        assert(texts(strings@).take(i + 1) =~= texts(strings@).take(i as int).push(
            strings@[i as int]@,
        ));
        i += 1;
    }
    assert(texts(strings@).take(strings@.len() as int) =~= texts(strings@));
    out
}

/// The character of a decimal digit.
pub open spec fn digit(d: int) -> char {
    (48 + d) as u8 as char
}

/// A number in decimal digits.
pub open spec fn decimal(n: nat) -> Seq<char>
    decreases n,
{
    if n < 10 {
        seq![digit(n as int)]
    } else {
        decimal(n / 10).push(digit((n % 10) as int))
    }
}

/// Computes [`decimal`].
pub fn decimal_text(n: u128) -> (text: String)
    ensures
        text@ == decimal(n as nat),
    decreases n,
{
    if n < 10 {
        let mut text = String::new();
        text.push((48u8 + n as u8) as char);
        assert(text@ =~= decimal(n as nat));
        text
    } else {
        let mut text = decimal_text(n / 10);
        text.push((48u8 + (n % 10) as u8) as char);
        text
    }
}

/// Whether a character has the Unicode property `White_Space`.
pub open spec fn white_space(c: char) -> bool {
    ||| '\u{9}' <= c <= '\u{d}'
    ||| c == ' '
    ||| c == '\u{85}'
    ||| c == '\u{a0}'
    ||| c == '\u{1680}'
    ||| '\u{2000}' <= c <= '\u{200a}'
    ||| c == '\u{2028}'
    ||| c == '\u{2029}'
    ||| c == '\u{202f}'
    ||| c == '\u{205f}'
    ||| c == '\u{3000}'
}

/// Computes [`white_space`].
pub fn is_space(c: char) -> (space: bool)
    ensures
        space == white_space(c),
{
    match c {
        '\u{9}'..='\u{d}' | ' ' | '\u{85}' | '\u{a0}' | '\u{1680}' | '\u{2000}'..='\u{200a}' => true,
        '\u{2028}' | '\u{2029}' | '\u{202f}' | '\u{205f}' | '\u{3000}' => true,
        _ => false,
    }
}

/// A text without the white space at its end.
pub open spec fn space_trimmed_end(s: Seq<char>) -> Seq<char>
    decreases s.len(),
{
    if s.len() > 0 && white_space(s.last()) {
        space_trimmed_end(s.drop_last())
    } else {
        s
    }
}

/// A text without the white space at its two ends.
pub open spec fn space_trimmed(s: Seq<char>) -> Seq<char>
    decreases s.len(),
{
    if s.len() > 0 && white_space(s[0]) {
        space_trimmed(s.drop_first())
    } else {
        space_trimmed_end(s)
    }
}

/// Computes [`space_trimmed_end`].
pub fn slice_trim_space_end<'a>(s: &'a [char]) -> (rest: &'a [char])
    ensures
        rest@ == space_trimmed_end(s@),
{
    let mut to: usize = s.len();
    assert(s@.subrange(0, to as int) =~= s@);
    while to > 0
        invariant_except_break
            to <= s@.len(),
            space_trimmed_end(s@) == space_trimmed_end(s@.subrange(0, to as int)),
        ensures
            to <= s@.len(),
            space_trimmed_end(s@) == s@.subrange(0, to as int),
        decreases to,
    {
        assert(s@.subrange(0, to as int).last() == s@[to - 1]);
        if !is_space(s[to - 1]) {
            break;
        }
        assert(s@.subrange(0, to as int).drop_last() =~= s@.subrange(0, to - 1));
        to -= 1;
    }
    vstd::slice::slice_subrange(s, 0, to)
}

/// Computes [`space_trimmed`].
pub fn slice_trim_space<'a>(s: &'a [char]) -> (rest: &'a [char])
    ensures
        rest@ == space_trimmed(s@),
{
    let n: usize = s.len();
    let mut from: usize = 0;
    assert(s@.subrange(0, n as int) =~= s@);
    while from < n
        invariant_except_break
            from <= n,
            n == s@.len(),
            space_trimmed(s@) == space_trimmed(s@.subrange(from as int, n as int)),
        ensures
            from <= n,
            space_trimmed(s@) == space_trimmed_end(s@.subrange(from as int, n as int)),
        decreases n - from,
    {
        assert(s@.subrange(from as int, n as int)[0] == s@[from as int]);
        if !is_space(s[from]) {
            break;
        }
        assert(s@.subrange(from as int, n as int).drop_first() =~= s@.subrange(
            from + 1,
            n as int,
        ));
        from += 1;
    }
    slice_trim_space_end(vstd::slice::slice_subrange(s, from, n))
}

/// A signed number in decimal digits.
pub open spec fn signed_decimal(n: int) -> Seq<char> {
    if n < 0 {
        seq!['-'] + decimal((-n) as nat)
    } else {
        decimal(n as nat)
    }
}

/// Computes [`signed_decimal`].
pub fn signed_decimal_text(n: i32) -> (text: String)
    ensures
        text@ == signed_decimal(n as int),
{
    if n < 0 {
        let mut text = String::new();
        text.push('-');
        let digits = decimal_text((-(n as i64)) as u128);
        text.append(digits.as_str());
        assert(text@ =~= signed_decimal(n as int));
        text
    } else {
        decimal_text(n as u128)
    }
}

/// Texts one after the other, with `separator` between them.
pub open spec fn joined_by(parts: Seq<Seq<char>>, separator: Seq<char>) -> Seq<char>
    decreases parts.len(),
{
    if parts.len() == 0 {
        Seq::empty()
    } else if parts.len() == 1 {
        parts[0]
    } else {
        joined_by(parts.drop_last(), separator) + separator + parts.last()
    }
}

/// Computes [`joined_by`].
pub fn join_texts(parts: &Vec<String>, separator: &str) -> (text: String)
    ensures
        text@ == joined_by(texts(parts@), separator@),
{
    let ghost all = texts(parts@);
    let mut text = String::new();
    let mut i: usize = 0;
    assert(all.take(0) =~= Seq::<Seq<char>>::empty());
    assert(text@ =~= joined_by(all.take(0), separator@));
    while i < parts.len()
        invariant
            all == texts(parts@),
            i <= parts@.len(),
            text@ == joined_by(all.take(i as int), separator@),
        decreases parts@.len() - i,
    {
        proof {
            assert(all.take(i + 1).drop_last() =~= all.take(i as int));
            assert(all.take(i + 1).last() == parts@[i as int]@);
        }
        if i > 0 {
            text.append(separator);
        }
        text.append(parts[i].as_str());
        assert(text@ =~= joined_by(all.take(i + 1), separator@));
        i += 1;
    }
    assert(all.take(i as int) =~= all);
    text
}

} // verus!
