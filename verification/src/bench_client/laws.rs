//! What a header says back, and what arguments amount to.
use vstd::prelude::*;

use crate::bench_client::{ArgsFault, HeaderLine};

verus! {

/// A header that was written for a length is read as that length.
pub proof fn headers_read_back(length: usize)
    ensures
        crate::bench_client::header_for(length as nat) == "Content-Length: "@
            + crate::text::decimal(length as nat) + "\r\n\r\n"@,
        crate::bench_client::says(
            "Content-Length: "@ + crate::text::decimal(length as nat) + "\r\n"@,
            HeaderLine::Length(length),
        ),
        crate::bench_client::says("\r\n"@, HeaderLine::End),
{
    reveal_strlit("Content-Length: ");
    reveal_strlit("Content-Length:");
    reveal_strlit("\r\n");
    reveal_strlit(" ");
    let digits = crate::text::decimal(length as nat);
    let line = "Content-Length: "@ + digits + "\r\n"@;
    let kept = "Content-Length: "@ + digits;
    lemma_digits(length as nat);
    assert(digits[0] == kept["Content-Length: "@.len() as int]);
    assert('0' <= digits[0] <= '9' && '0' <= digits.last() <= '9');
    assert(kept.last() == digits.last());
    assert forall|c: char| #[trigger] "\r\n"@.contains(c) implies crate::text::white_space(c) by {
        let i = choose|i: int| 0 <= i < "\r\n"@.len() && "\r\n"@[i] == c;
        assert(i == 0 || i == 1);
    }
    assert(kept + "\r\n"@ =~= line);
    crate::text::laws::lemma_trimmed_end(kept, "\r\n"@);
    assert("Content-Length:"@.is_prefix_of(kept));
    let rest = kept.skip("Content-Length:"@.len() as int);
    assert(rest =~= seq![' '] + digits + Seq::<char>::empty());
    assert forall|c: char| #[trigger] seq![' '].contains(c) implies crate::text::white_space(c) by {}
    crate::text::laws::white_space_is_trimmed(seq![' '], digits, Seq::empty());
    assert(digits[0] != '+');
    assert("\r\n"@.drop_last() =~= seq!['\r']);
    assert(seq!['\r'].drop_last() =~= Seq::<char>::empty());
    reveal_with_fuel(crate::text::space_trimmed_end, 3);
}

/// Decimal digits stand for the number that they were written for.
proof fn lemma_digits(n: nat)
    ensures
        crate::bench_client::are_digits(crate::text::decimal(n)),
        crate::bench_client::digits_value(crate::text::decimal(n)) == n,
    decreases n,
{
    let text = crate::text::decimal(n);
    reveal_with_fuel(crate::bench_client::digits_value, 2);
    if n >= 10 {
        lemma_digits(n / 10);
        assert(text.drop_last() =~= crate::text::decimal(n / 10));
        assert(text.last() == crate::text::digit((n % 10) as int));
        assert forall|i: int| 0 <= i < text.len() implies '0' <= #[trigger] text[i] <= '9' by {
            if i < text.len() - 1 {
                assert(text[i] == crate::text::decimal(n / 10)[i]);
            }
        }
    } else {
        assert(text.drop_last() =~= Seq::<char>::empty());
        assert(text.last() == crate::text::digit(n as int));
    }
}

/// Arguments are flags with their values, of which the last for a flag counts.
/// What is no flag, and a flag without a value, is refused.
pub proof fn arguments_are_flags_and_values(
    raw: Seq<Seq<char>>,
    from: int,
    known: Map<Seq<char>, Seq<char>>,
    key: Seq<char>,
)
    requires
        0 <= from <= raw.len(),
    ensures
        from == raw.len() ==> crate::bench_client::options(raw, from, known) == Ok::<
            Map<Seq<char>, Seq<char>>,
            ArgsFault,
        >(known),
        from < raw.len() && !"--"@.is_prefix_of(raw[from]) ==> crate::bench_client::options(
            raw,
            from,
            known,
        ) == Err::<Map<Seq<char>, Seq<char>>, ArgsFault>(ArgsFault::NotAFlag(raw[from])),
        from + 1 == raw.len() && raw[from] == "--"@ + key ==> crate::bench_client::options(
            raw,
            from,
            known,
        ) == Err::<Map<Seq<char>, Seq<char>>, ArgsFault>(ArgsFault::NoValue(key)),
        from + 1 < raw.len() && raw[from] == "--"@ + key ==> crate::bench_client::options(
            raw,
            from,
            known,
        ) == crate::bench_client::options(raw, from + 2, known.insert(key, raw[from + 1])),
{
    reveal_strlit("--");
    if from < raw.len() {
        let flag = raw[from];
        if flag == "--"@ + key {
            assert(flag.skip(2) =~= key);
        }
        if flag.len() >= 2 && flag[0] == '-' && flag[1] == '-' {
            assert("--"@.is_prefix_of(flag));
        }
    }
}

/// A startup run fails for an index that is not there, and for fewer answers
/// than were expected.
pub proof fn startup_runs_fail_for_a_reason(
    loaded: bool,
    query: Seq<char>,
    returned: nat,
    expected: nat,
)
    ensures
        crate::bench_client::startup_faults(loaded, query, returned, expected).len() == 0 <==> loaded
            && returned >= expected,
        !loaded && returned < expected ==> crate::bench_client::startup_faults(
            loaded,
            query,
            returned,
            expected,
        ).len() == 2,
{
}

/// A probe that was sent is due again a period later, and one that was not stays
/// due when it was.
pub proof fn probes_are_due_by_periods(next: u128, now: u128, period: u128)
    ensures
        now < next ==> crate::bench_client::next_time(next, now, period) == next,
        now >= next && next + period <= u128::MAX ==> crate::bench_client::next_time(
            next,
            now,
            period,
        ) == next + period,
{
}

} // verus!
