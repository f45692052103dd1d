//! Sorting row numbers by a strict total order.
use vstd::prelude::*;

verus! {

/// A strict total order on row numbers.
pub trait TotalOrder {
    /// Whether `a` comes before `b`.
    spec fn before(&self, a: usize, b: usize) -> bool;

    /// Nothing comes before itself.
    proof fn lemma_irreflexive(&self, a: usize)
        ensures
            !self.before(a, a),
    ;

    /// What comes before something before a third comes before the third.
    proof fn lemma_transitive(&self, a: usize, b: usize, c: usize)
        requires
            self.before(a, b),
            self.before(b, c),
        ensures
            self.before(a, c),
    ;

    /// Of two rows one comes before the other.
    proof fn lemma_total(&self, a: usize, b: usize)
        requires
            a != b,
        ensures
            self.before(a, b) || self.before(b, a),
    ;

}

/// A strict total order that can be decided.
pub trait Precedence: TotalOrder {
    /// Whether `a` names a row that the order knows.
    spec fn known(&self, a: usize) -> bool;

    /// Decides [`TotalOrder::before`].
    fn precedes(&self, a: usize, b: usize) -> (first: bool)
        requires
            self.known(a),
            self.known(b),
        ensures
            first == self.before(a, b),
    ;
}

/// Whether every row of `rows` comes before all later ones.
pub open spec fn ordered<P: TotalOrder>(order: &P, rows: Seq<usize>) -> bool {
    forall|i: int, j: int|
        0 <= i < j < rows.len() ==> #[trigger] order.before(rows[i], rows[j])
}

/// Whether the order knows every row of `rows`.
pub open spec fn all_known<P: Precedence>(order: &P, rows: Seq<usize>) -> bool {
    forall|i: int| 0 <= i < rows.len() ==> #[trigger] order.known(rows[i])
}

/// An ordered sequence names no row twice.
pub proof fn lemma_ordered_distinct<P: TotalOrder>(order: &P, rows: Seq<usize>)
    requires
        ordered(order, rows),
    ensures
        rows.no_duplicates(),
{
    assert forall|i: int, j: int| 0 <= i < j < rows.len() implies rows[i] != rows[j] by {
        assert(order.before(rows[i], rows[j]));
        order.lemma_irreflexive(rows[i]);
    }
}

/// There is one ordered sequence for a set of rows.
pub proof fn lemma_ordered_unique<P: TotalOrder>(order: &P, a: Seq<usize>, b: Seq<usize>)
    requires
        ordered(order, a),
        ordered(order, b),
        forall|x: usize| a.contains(x) <==> b.contains(x),
    ensures
        a == b,
    decreases a.len(),
{
    if a.len() == 0 {
        if b.len() > 0 {
            assert(b.contains(b[0]));
        }
        assert(a =~= b);
    } else {
        assert(a.contains(a[0]));
        assert(b.len() > 0);
        assert(b.contains(b[0]));
        let i = choose|i: int| 0 <= i < b.len() && b[i] == a[0];
        let j = choose|j: int| 0 <= j < a.len() && a[j] == b[0];
        if i > 0 {
            assert(order.before(b[0], b[i]));
            if j > 0 {
                assert(order.before(a[0], a[j]));
                order.lemma_transitive(a[0], b[0], a[0]);
            }
            order.lemma_irreflexive(a[0]);
        }
        assert(a[0] == b[0]);
        let a1 = a.drop_first();
        let b1 = b.drop_first();
        lemma_ordered_distinct(order, a);
        lemma_ordered_distinct(order, b);
        assert forall|p: int, q: int| 0 <= p < q < a1.len() implies #[trigger] order.before(
            a1[p],
            a1[q],
        ) by {
            assert(order.before(a[p + 1], a[q + 1]));
        }
        assert forall|p: int, q: int| 0 <= p < q < b1.len() implies #[trigger] order.before(
            b1[p],
            b1[q],
        ) by {
            assert(order.before(b[p + 1], b[q + 1]));
        }
        assert forall|x: usize| a1.contains(x) <==> b1.contains(x) by {
            if a1.contains(x) {
                let p = choose|p: int| 0 <= p < a1.len() && a1[p] == x;
                assert(a[p + 1] == x);
                assert(b.contains(x));
                let q = choose|q: int| 0 <= q < b.len() && b[q] == x;
                assert(q != 0);
                assert(b1[q - 1] == x);
            }
            if b1.contains(x) {
                let p = choose|p: int| 0 <= p < b1.len() && b1[p] == x;
                assert(b[p + 1] == x);
                assert(a.contains(x));
                let q = choose|q: int| 0 <= q < a.len() && a[q] == x;
                assert(q != 0);
                assert(a1[q - 1] == x);
            }
        }
        lemma_ordered_unique(order, a1, b1);
        assert(a =~= seq![a[0]] + a1);
        assert(b =~= seq![b[0]] + b1);
    }
}

/// Merges two ordered vectors without a row in common.
fn merge<P: Precedence>(order: &P, left: &Vec<usize>, right: &Vec<usize>) -> (out: Vec<usize>)
    requires
        all_known(order, left@),
        all_known(order, right@),
        ordered(order, left@),
        ordered(order, right@),
        forall|x: usize| !(left@.contains(x) && right@.contains(x)),
    ensures
        ordered(order, out@),
        all_known(order, out@),
        forall|x: usize| #[trigger] out@.contains(x) <==> left@.contains(x) || right@.contains(x),
{
    let mut out: Vec<usize> = Vec::new();
    let mut i: usize = 0;
    let mut j: usize = 0;
    while i < left.len() || j < right.len()
        invariant
            0 <= i <= left@.len(),
            0 <= j <= right@.len(),
            all_known(order, left@),
            all_known(order, right@),
            ordered(order, left@),
            ordered(order, right@),
            forall|x: usize| !(left@.contains(x) && right@.contains(x)),
            ordered(order, out@),
            all_known(order, out@),
            forall|x: usize| #[trigger]
                out@.contains(x) <==> left@.take(i as int).contains(x) || right@.take(
                    j as int,
                ).contains(x),
            forall|k: int, p: int|
                0 <= k < out@.len() && i <= p < left@.len() ==> #[trigger] order.before(
                    out@[k],
                    left@[p],
                ),
            forall|k: int, p: int|
                0 <= k < out@.len() && j <= p < right@.len() ==> #[trigger] order.before(
                    out@[k],
                    right@[p],
                ),
        decreases left@.len() - i + right@.len() - j,
    {
        let take_left = if i < left.len() && j < right.len() {
            proof {
                assert(left@.contains(left@[i as int]));
                assert(right@.contains(right@[j as int]));
                assert(left@[i as int] != right@[j as int]);
                order.lemma_total(left@[i as int], right@[j as int]);
                assert(order.known(left@[i as int]));
                assert(order.known(right@[j as int]));
            }
            order.precedes(left[i], right[j])
        } else {
            i < left.len()
        };
        let ghost before = out@;
        if take_left {
            let x: usize = left[i];
            out.push(x);
            proof {
                assert forall|p: int| j <= p < right@.len() implies #[trigger] order.before(
                    x,
                    right@[p],
                ) by {
                    if p > j {
                        assert(order.before(right@[j as int], right@[p]));
                        order.lemma_transitive(x, right@[j as int], right@[p]);
                    }
                }
                assert(left@.take(i + 1) =~= left@.take(i as int).push(x));
                lemma_push_contains(left@.take(i as int), x);
                lemma_push_contains(before, x);
                assert forall|k: int, p: int|
                    0 <= k < out@.len() && i + 1 <= p < left@.len() implies #[trigger] order.before(
                    out@[k],
                    left@[p],
                ) by {
                    if k == before.len() {
                        assert(order.before(left@[i as int], left@[p]));
                    } else {
                        assert(order.before(before[k], left@[p]));
                    }
                }
                assert forall|k: int, p: int|
                    0 <= k < out@.len() && j <= p < right@.len() implies #[trigger] order.before(
                    out@[k],
                    right@[p],
                ) by {
                    if k < before.len() {
                        assert(order.before(before[k], right@[p]));
                    }
                }
                assert forall|a: int, b: int| 0 <= a < b < out@.len() implies #[trigger] order.before(
                    out@[a],
                    out@[b],
                ) by {
                    if b == before.len() {
                        assert(order.before(before[a], left@[i as int]));
                    } else {
                        assert(order.before(before[a], before[b]));
                    }
                }
                assert forall|k: int| 0 <= k < out@.len() implies #[trigger] order.known(
                    out@[k],
                ) by {
                    if k < before.len() {
                        assert(order.known(before[k]));
                    } else {
                        assert(order.known(left@[i as int]));
                    }
                }
            }
            i += 1;
        } else {
            let x: usize = right[j];
            out.push(x);
            proof {
                assert forall|p: int| i <= p < left@.len() implies #[trigger] order.before(
                    x,
                    left@[p],
                ) by {
                    if p > i {
                        assert(order.before(left@[i as int], left@[p]));
                        order.lemma_transitive(x, left@[i as int], left@[p]);
                    }
                }
                assert(right@.take(j + 1) =~= right@.take(j as int).push(x));
                lemma_push_contains(right@.take(j as int), x);
                lemma_push_contains(before, x);
                assert forall|k: int, p: int|
                    0 <= k < out@.len() && j + 1 <= p < right@.len() implies #[trigger] order.before(
                    out@[k],
                    right@[p],
                ) by {
                    if k == before.len() {
                        assert(order.before(right@[j as int], right@[p]));
                    } else {
                        assert(order.before(before[k], right@[p]));
                    }
                }
                assert forall|k: int, p: int|
                    0 <= k < out@.len() && i <= p < left@.len() implies #[trigger] order.before(
                    out@[k],
                    left@[p],
                ) by {
                    if k < before.len() {
                        assert(order.before(before[k], left@[p]));
                    }
                }
                assert forall|a: int, b: int| 0 <= a < b < out@.len() implies #[trigger] order.before(
                    out@[a],
                    out@[b],
                ) by {
                    if b == before.len() {
                        assert(order.before(before[a], right@[j as int]));
                    } else {
                        assert(order.before(before[a], before[b]));
                    }
                }
                assert forall|k: int| 0 <= k < out@.len() implies #[trigger] order.known(
                    out@[k],
                ) by {
                    if k < before.len() {
                        assert(order.known(before[k]));
                    } else {
                        assert(order.known(right@[j as int]));
                    }
                }
            }
            j += 1;
        }
    }
    proof {
        assert(left@.take(left@.len() as int) =~= left@);
        assert(right@.take(right@.len() as int) =~= right@);
    }
    out
}

proof fn lemma_push_contains(s: Seq<usize>, x: usize)
    ensures
        forall|y: usize| #[trigger] s.push(x).contains(y) <==> s.contains(y) || y == x,
{
    assert forall|y: usize| #[trigger] s.push(x).contains(y) <==> s.contains(y) || y == x by {
        if s.contains(y) {
            let k = choose|k: int| 0 <= k < s.len() && s[k] == y;
            assert(s.push(x)[k] == y);
        }
        assert(s.push(x)[s.len() as int] == x);
        if s.push(x).contains(y) && y != x {
            let k = choose|k: int| 0 <= k < s.push(x).len() && s.push(x)[k] == y;
            assert(s[k] == y);
        }
    }
}

/// The rows of `rows`, which are distinct, in order.
pub fn sorted_rows<P: Precedence>(order: &P, rows: &Vec<usize>) -> (out: Vec<usize>)
    requires
        all_known(order, rows@),
        rows@.no_duplicates(),
    ensures
        ordered(order, out@),
        all_known(order, out@),
        forall|x: usize| #[trigger] out@.contains(x) <==> rows@.contains(x),
    decreases rows@.len(),
{
    let n: usize = rows.len();
    if n <= 1 {
        let mut out: Vec<usize> = Vec::new();
        if n == 1 {
            out.push(rows[0]);
            assert(order.known(rows@[0]));
        }
        assert(out@ =~= rows@);
        return out;
    }
    let middle: usize = n / 2;
    let mut left: Vec<usize> = Vec::new();
    let mut right: Vec<usize> = Vec::new();
    let mut i: usize = 0;
    while i < n
        invariant
            n == rows@.len(),
            middle < n,
            i <= n,
            left@ == rows@.take(if i < middle {
                i as int
            } else {
                middle as int
            }),
            right@ == (if i < middle {
                Seq::empty()
            } else {
                rows@.subrange(middle as int, i as int)
            }),
        decreases n - i,
    {
        if i < middle {
            left.push(rows[i]);
            assert(rows@.take(i + 1) =~= rows@.take(i as int).push(rows@[i as int]));
        } else {
            right.push(rows[i]);
            assert(rows@.subrange(middle as int, i + 1) =~= rows@.subrange(
                middle as int,
                i as int,
            ).push(rows@[i as int]));
        }
        i += 1;
    }
    proof {
        assert forall|k: int| 0 <= k < left@.len() implies #[trigger] order.known(left@[k]) by {
            assert(order.known(rows@[k]));
        }
        assert forall|k: int| 0 <= k < right@.len() implies #[trigger] order.known(right@[k]) by {
            assert(order.known(rows@[k + middle]));
        }
        assert forall|x: usize| !(left@.contains(x) && right@.contains(x)) by {
            if left@.contains(x) && right@.contains(x) {
                let a = choose|a: int| 0 <= a < left@.len() && left@[a] == x;
                let b = choose|b: int| 0 <= b < right@.len() && right@[b] == x;
                assert(rows@[a] == rows@[b + middle]);
            }
        }
        assert forall|x: usize| rows@.contains(x) <==> left@.contains(x) || right@.contains(x) by {
            if rows@.contains(x) {
                let a = choose|a: int| 0 <= a < rows@.len() && rows@[a] == x;
                if a < middle {
                    assert(left@[a] == x);
                } else {
                    assert(right@[a - middle] == x);
                }
            }
            if left@.contains(x) {
                let a = choose|a: int| 0 <= a < left@.len() && left@[a] == x;
                assert(rows@[a] == x);
            }
            if right@.contains(x) {
                let a = choose|a: int| 0 <= a < right@.len() && right@[a] == x;
                assert(rows@[a + middle] == x);
            }
        }
    }
    let left = sorted_rows(order, &left);
    let right = sorted_rows(order, &right);
    merge(order, &left, &right)
}

/// There is a place for every row in an ordered sequence without it.
pub proof fn lemma_place<P: TotalOrder>(order: &P, rows: Seq<usize>, x: usize) -> (at: int)
    requires
        ordered(order, rows),
        !rows.contains(x),
    ensures
        0 <= at <= rows.len(),
        forall|k: int| 0 <= k < at ==> #[trigger] order.before(rows[k], x),
        forall|k: int| at <= k < rows.len() ==> #[trigger] order.before(x, rows[k]),
    decreases rows.len(),
{
    if rows.len() == 0 {
        0
    } else {
        assert(rows.last() != x) by {
            assert(rows.contains(rows[rows.len() - 1]));
        }
        order.lemma_total(rows.last(), x);
        if order.before(rows.last(), x) {
            assert forall|k: int| 0 <= k < rows.len() implies #[trigger] order.before(
                rows[k],
                x,
            ) by {
                if k < rows.len() - 1 {
                    assert(order.before(rows[k], rows[rows.len() - 1]));
                    order.lemma_transitive(rows[k], rows.last(), x);
                }
            }
            rows.len() as int
        } else {
            let head = rows.drop_last();
            assert forall|i: int, j: int| 0 <= i < j < head.len() implies #[trigger] order.before(
                head[i],
                head[j],
            ) by {
                assert(order.before(rows[i], rows[j]));
            }
            assert(!head.contains(x)) by {
                if head.contains(x) {
                    let k = choose|k: int| 0 <= k < head.len() && head[k] == x;
                    assert(rows[k] == x);
                }
            }
            let at = lemma_place(order, head, x);
            assert forall|k: int| 0 <= k < at implies #[trigger] order.before(rows[k], x) by {
                assert(order.before(head[k], x));
            }
            assert forall|k: int| at <= k < rows.len() implies #[trigger] order.before(
                x,
                rows[k],
            ) by {
                if k < head.len() {
                    assert(order.before(x, head[k]));
                }
            }
            at
        }
    }
}

/// A row put into its place leaves the sequence ordered.
pub proof fn lemma_insert_ordered<P: TotalOrder>(order: &P, rows: Seq<usize>, x: usize, at: int)
    requires
        ordered(order, rows),
        0 <= at <= rows.len(),
        forall|k: int| 0 <= k < at ==> #[trigger] order.before(rows[k], x),
        forall|k: int| at <= k < rows.len() ==> #[trigger] order.before(x, rows[k]),
    ensures
        ordered(order, rows.insert(at, x)),
        forall|y: usize| #[trigger] rows.insert(at, x).contains(y) <==> rows.contains(y) || y == x,
{
    let after = rows.insert(at, x);
    assert forall|i: int, j: int| 0 <= i < j < after.len() implies #[trigger] order.before(
        after[i],
        after[j],
    ) by {
        if j < at {
            assert(order.before(rows[i], rows[j]));
        } else if i > at {
            assert(order.before(rows[i - 1], rows[j - 1]));
        } else if i < at && j > at {
            assert(order.before(rows[i], rows[j - 1]));
        } else if i == at {
            assert(order.before(x, rows[j - 1]));
        } else {
            assert(order.before(rows[i], x));
        }
    }
    assert forall|y: usize| #[trigger] after.contains(y) <==> rows.contains(y) || y == x by {
        if after.contains(y) {
            let k = choose|k: int| 0 <= k < after.len() && after[k] == y;
            if k < at {
                assert(rows[k] == y);
            } else if k > at {
                assert(rows[k - 1] == y);
            }
        }
        if rows.contains(y) {
            let k = choose|k: int| 0 <= k < rows.len() && rows[k] == y;
            if k < at {
                assert(after[k] == y);
            } else {
                assert(after[k + 1] == y);
            }
        }
        assert(after[at] == x);
    }
}

/// Distinct rows below `n` are at most `n`.
pub proof fn lemma_distinct_bounded(rows: Seq<usize>, n: nat)
    requires
        rows.no_duplicates(),
        forall|k: int| 0 <= k < rows.len() ==> #[trigger] rows[k] < n,
    ensures
        rows.len() <= n,
    decreases n,
{
    if n == 0 {
        if rows.len() > 0 {
            assert(rows[0] < n);
        }
    } else if exists|k: int| 0 <= k < rows.len() && rows[k] == n - 1 {
        let k = choose|k: int| 0 <= k < rows.len() && rows[k] == n - 1;
        let rest = rows.remove(k);
        assert forall|i: int| 0 <= i < rest.len() implies #[trigger] rest[i] < n - 1 by {
            let j = if i < k {
                i
            } else {
                i + 1
            };
            assert(rest[i] == rows[j]);
            assert(rows[j] < n);
            assert(rows[j] != rows[k]);
        }
        assert(rest.no_duplicates()) by {
            assert forall|i: int, j: int|
                0 <= i < rest.len() && 0 <= j < rest.len() && i != j implies rest[i]
                != rest[j] by {
                let a = if i < k {
                    i
                } else {
                    i + 1
                };
                let b = if j < k {
                    j
                } else {
                    j + 1
                };
                assert(rest[i] == rows[a] && rest[j] == rows[b]);
            }
        }
        lemma_distinct_bounded(rest, (n - 1) as nat);
    } else {
        assert forall|k: int| 0 <= k < rows.len() implies #[trigger] rows[k] < n - 1 by {
            assert(rows[k] < n);
        }
        lemma_distinct_bounded(rows, (n - 1) as nat);
    }
}

} // verus!
