//! What the searches and orders of texts give, on texts put together.
use vstd::prelude::*;

use crate::text::signed_decimal_text;

verus! {

/// What stands behind the last separator is found, whatever is before it. A text
/// without one is found whole.
pub proof fn what_follows_the_last_is_after_it(
    before: Seq<char>,
    separator: char,
    after: Seq<char>,
    set: Seq<char>,
)
    requires
        set.contains(separator),
        forall|c: char| #[trigger] after.contains(c) ==> !set.contains(c),
    ensures
        crate::text::after_last(before + seq![separator] + after, set) == after,
        crate::text::after_last(after, set) == after,
    decreases after.len(),
{
    let whole = before + seq![separator] + after;
    if after.len() == 0 {
        assert(whole.last() == separator);
    } else {
        let rest = after.drop_last();
        assert forall|c: char| #[trigger] rest.contains(c) implies !set.contains(c) by {
            let i = choose|i: int| 0 <= i < rest.len() && rest[i] == c;
            assert(after[i] == c);
            assert(after.contains(c));
        }
        what_follows_the_last_is_after_it(before, separator, rest, set);
        assert(after.contains(after.last()));
        assert(whole.last() == after.last());
        assert(whole.drop_last() =~= before + seq![separator] + rest);
        assert(rest.push(after.last()) =~= after);
    }
}

/// What stands before the first separator is found, whatever follows. A text
/// without one is found whole.
pub proof fn what_precedes_the_first_is_before_it(
    before: Seq<char>,
    separator: char,
    after: Seq<char>,
    set: Seq<char>,
)
    requires
        set.contains(separator),
        forall|c: char| #[trigger] before.contains(c) ==> !set.contains(c),
    ensures
        crate::text::before_first(before + seq![separator] + after, set) == before,
        crate::text::before_first(before, set) == before,
    decreases before.len(),
{
    let whole = before + seq![separator] + after;
    if before.len() == 0 {
        assert(whole[0] == separator);
    } else {
        let rest = before.drop_first();
        assert forall|c: char| #[trigger] rest.contains(c) implies !set.contains(c) by {
            let i = choose|i: int| 0 <= i < rest.len() && rest[i] == c;
            assert(before[i + 1] == c);
            assert(before.contains(c));
        }
        what_precedes_the_first_is_before_it(rest, separator, after, set);
        assert(before.contains(before[0]));
        assert(whole[0] == before[0]);
        assert(whole.drop_first() =~= rest + seq![separator] + after);
        assert(seq![before[0]] + rest =~= before);
    }
}

/// Trimming an end takes away all that is to be trimmed there, and no more.
pub proof fn ends_are_trimmed(kept: Seq<char>, trimmed: Seq<char>, set: Seq<char>)
    requires
        kept.len() > 0 ==> !set.contains(kept.last()),
        forall|c: char| #[trigger] trimmed.contains(c) ==> set.contains(c),
    ensures
        crate::text::trim_end(kept + trimmed, set) == kept,
    decreases trimmed.len(),
{
    let whole = kept + trimmed;
    if trimmed.len() == 0 {
        assert(whole =~= kept);
    } else {
        let rest = trimmed.drop_last();
        assert forall|c: char| #[trigger] rest.contains(c) implies set.contains(c) by {
            let i = choose|i: int| 0 <= i < rest.len() && rest[i] == c;
            assert(trimmed[i] == c);
            assert(trimmed.contains(c));
        }
        ends_are_trimmed(kept, rest, set);
        assert(trimmed.contains(trimmed.last()));
        assert(whole.last() == trimmed.last());
        assert(whole.drop_last() =~= kept + rest);
    }
}

/// Trimming a start takes away all that is to be trimmed there, and no more.
pub proof fn starts_are_trimmed(trimmed: Seq<char>, kept: Seq<char>, set: Seq<char>)
    requires
        kept.len() > 0 ==> !set.contains(kept[0]),
        forall|c: char| #[trigger] trimmed.contains(c) ==> set.contains(c),
    ensures
        crate::text::trim_start(trimmed + kept, set) == kept,
    decreases trimmed.len(),
{
    let whole = trimmed + kept;
    if trimmed.len() == 0 {
        assert(whole =~= kept);
    } else {
        let rest = trimmed.drop_first();
        assert forall|c: char| #[trigger] rest.contains(c) implies set.contains(c) by {
            let i = choose|i: int| 0 <= i < rest.len() && rest[i] == c;
            assert(trimmed[i + 1] == c);
            assert(trimmed.contains(c));
        }
        starts_are_trimmed(rest, kept, set);
        assert(trimmed.contains(trimmed[0]));
        assert(whole[0] == trimmed[0]);
        assert(whole.drop_first() =~= rest + kept);
    }
}

/// Of two texts, the one with the lesser character at the first difference comes
/// first, and a text comes before all that it begins.
pub proof fn the_first_difference_decides(
    common: Seq<char>,
    x: char,
    y: char,
    a: Seq<char>,
    b: Seq<char>,
)
    requires
        x < y,
    ensures
        crate::text::text_before(common + seq![x] + a, common + seq![y] + b),
        !crate::text::text_before(common + seq![y] + b, common + seq![x] + a),
        crate::text::text_before(common, common + seq![x] + a),
        !crate::text::text_before(common + seq![x] + a, common),
    decreases common.len(),
{
    let p = common + seq![x] + a;
    let q = common + seq![y] + b;
    if common.len() == 0 {
        assert(p[0] == x);
        assert(q[0] == y);
    } else {
        let rest = common.drop_first();
        the_first_difference_decides(rest, x, y, a, b);
        assert(p[0] == common[0]);
        assert(q[0] == common[0]);
        assert(p.drop_first() =~= rest + seq![x] + a);
        assert(q.drop_first() =~= rest + seq![y] + b);
    }
}

/// Joining puts the separator between two parts, and nothing at the ends.
pub proof fn joined_parts_are_separated(
    first: Seq<Seq<char>>,
    last: Seq<char>,
    separator: Seq<char>,
)
    ensures
        crate::text::joined_by(Seq::empty(), separator).len() == 0,
        crate::text::joined_by(seq![last], separator) == last,
        first.len() > 0 ==> crate::text::joined_by(first.push(last), separator)
            == crate::text::joined_by(first, separator) + separator + last,
{
    assert(first.push(last).drop_last() =~= first);
}

/// A part occurs in a text where something can be put before it and behind it to
/// make the text.
pub proof fn occurrences_split_the_text(before: Seq<char>, part: Seq<char>, after: Seq<char>)
    ensures
        crate::text::occurs_in(before + part + after, part),
{
    let whole = before + part + after;
    assert(whole.subrange(before.len() as int, (before.len() + part.len()) as int) =~= part);
    assert(crate::text::occurs_at(whole, part, before.len() as int));
}

/// A text that a part occurs in is something, the part, and something.
pub proof fn texts_split_at_occurrences(text: Seq<char>, part: Seq<char>)
    requires
        crate::text::occurs_in(text, part),
    ensures
        exists|before: Seq<char>, after: Seq<char>| text == #[trigger] (before + part + after),
{
    let at = choose|at: int| #[trigger] crate::text::occurs_at(text, part, at);
    let before = text.take(at);
    let after = text.skip(at + part.len());
    assert(text =~= before + part + after);
}

/// A text with a character in it splits at the last one.
pub proof fn lemma_split_last(s: Seq<char>, c: char) -> (parts: (Seq<char>, Seq<char>))
    ensures
        s.contains(c) ==> s == parts.0 + seq![c] + parts.1,
        s.contains(c) ==> !parts.1.contains(c),
    decreases s.len(),
{
    if s.len() == 0 {
        (Seq::empty(), Seq::empty())
    } else if s.last() == c {
        assert(s =~= s.drop_last() + seq![c] + Seq::empty());
        (s.drop_last(), Seq::empty())
    } else {
        let (before, after) = lemma_split_last(s.drop_last(), c);
        if s.contains(c) {
            let i = choose|i: int| 0 <= i < s.len() && s[i] == c;
            assert(s.drop_last()[i] == c);
            assert(s.drop_last().contains(c));
            assert(s =~= s.drop_last().push(s.last()));
            assert(s =~= before + seq![c] + after.push(s.last()));
            assert(!after.push(s.last()).contains(c)) by {
                if after.push(s.last()).contains(c) {
                    let k = choose|k: int|
                        0 <= k < after.push(s.last()).len() && after.push(s.last())[k] == c;
                    assert(after[k] == c);
                }
            }
        }
        (before, after.push(s.last()))
    }
}

/// White space is taken away at both ends, all of it, and nothing between.
pub proof fn white_space_is_trimmed(left: Seq<char>, kept: Seq<char>, right: Seq<char>)
    requires
        forall|c: char| #[trigger] left.contains(c) ==> crate::text::white_space(c),
        forall|c: char| #[trigger] right.contains(c) ==> crate::text::white_space(c),
        kept.len() > 0 ==> !crate::text::white_space(kept[0]) && !crate::text::white_space(
            kept.last(),
        ),
    ensures
        crate::text::space_trimmed(left + kept + right) == kept,
    decreases left.len(),
{
    let whole = left + kept + right;
    if left.len() > 0 {
        let rest = left.drop_first();
        assert forall|c: char| #[trigger] rest.contains(c) implies crate::text::white_space(c) by {
            let i = choose|i: int| 0 <= i < rest.len() && rest[i] == c;
            assert(left[i + 1] == c);
            assert(left.contains(c));
        }
        assert(left.contains(left[0]));
        assert(whole[0] == left[0]);
        assert(whole.drop_first() =~= rest + kept + right);
        white_space_is_trimmed(rest, kept, right);
    } else {
        assert(whole =~= kept + right);
        if kept.len() > 0 {
            assert(whole[0] == kept[0]);
            lemma_trimmed_end(kept, right);
        } else {
            assert(whole =~= right);
            lemma_all_trimmed(right);
        }
    }
}

/// The usual separators are white space, and nothing that shows is.
pub proof fn separators_are_white_space(c: char)
    ensures
        c == ' ' || c == '\t' || c == '\n' || c == '\r' ==> crate::text::white_space(c),
        '!' <= c <= '~' ==> !crate::text::white_space(c),
{
}

/// A number is written with its last digit behind the rest of it.
pub proof fn numbers_are_written_in_decimal(n: nat, d: nat)
    requires
        d < 10,
    ensures
        n == 0 ==> crate::text::decimal(d).len() == 1,
        n > 0 ==> crate::text::decimal(10 * n + d) == crate::text::decimal(n)
            + crate::text::decimal(d),
        crate::text::decimal(d)[0] as int == '0' as int + d,
{
    if n > 0 {
        assert((10 * n + d) / 10 == n);
        assert((10 * n + d) % 10 == d);
        assert(crate::text::decimal(d) =~= seq![crate::text::digit(d as int)]);
        assert(crate::text::decimal(10 * n + d) =~= crate::text::decimal(n).push(
            crate::text::digit(d as int),
        ));
    }
}

pub(crate) proof fn lemma_trimmed_end(kept: Seq<char>, right: Seq<char>)
    requires
        forall|c: char| #[trigger] right.contains(c) ==> crate::text::white_space(c),
        kept.len() > 0,
        !crate::text::white_space(kept.last()),
    ensures
        crate::text::space_trimmed_end(kept + right) == kept,
    decreases right.len(),
{
    let whole = kept + right;
    if right.len() == 0 {
        assert(whole =~= kept);
    } else {
        let rest = right.drop_last();
        assert forall|c: char| #[trigger] rest.contains(c) implies crate::text::white_space(c) by {
            let i = choose|i: int| 0 <= i < rest.len() && rest[i] == c;
            assert(right[i] == c);
            assert(right.contains(c));
        }
        assert(right.contains(right.last()));
        assert(whole.last() == right.last());
        assert(whole.drop_last() =~= kept + rest);
        lemma_trimmed_end(kept, rest);
    }
}

proof fn lemma_all_trimmed(right: Seq<char>)
    requires
        forall|c: char| #[trigger] right.contains(c) ==> crate::text::white_space(c),
    ensures
        crate::text::space_trimmed(right).len() == 0,
    decreases right.len(),
{
    if right.len() > 0 {
        let rest = right.drop_first();
        assert forall|c: char| #[trigger] rest.contains(c) implies crate::text::white_space(c) by {
            let i = choose|i: int| 0 <= i < rest.len() && rest[i] == c;
            assert(right[i + 1] == c);
            assert(right.contains(c));
        }
        assert(right.contains(right[0]));
        lemma_all_trimmed(rest);
    }
}

/// A negative number is written as what it falls short of zero, behind a minus,
/// and any other as it is.
pub proof fn negative_numbers_begin_with_a_minus(n: i32, text: String)
    requires
        call_ensures(signed_decimal_text, (n,), text),
    ensures
        n < 0 ==> text@.len() > 0 && text@[0] == '-' && text@.skip(1) == crate::text::decimal(
            (-n) as nat,
        ),
        n >= 0 ==> text@ == crate::text::decimal(n as nat),
{
    if n < 0 {
        assert(text@.skip(1) =~= crate::text::decimal((-n) as nat));
    }
}

} // verus!
