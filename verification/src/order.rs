//! Sorting: a stable sort, for lists of anything that has an order.

use crate::text::{lemma_text_le_total, lemma_text_le_transitive, text_at_most, text_le};
use vstd::prelude::*;

verus! {

/// Values with a total order on what they stand for.
pub trait Ordered: View + Sized {
    /// `a` comes before `b`, or neither comes before the other.
    spec fn not_after(a: Self::V, b: Self::V) -> bool;

    /// Any two values are ordered one way or the other.
    proof fn not_after_total(a: Self::V, b: Self::V)
        ensures
            Self::not_after(a, b) || Self::not_after(b, a),
    ;

    proof fn not_after_transitive(a: Self::V, b: Self::V, c: Self::V)
        requires
            Self::not_after(a, b),
            Self::not_after(b, c),
        ensures
            Self::not_after(a, c),
    ;

    fn at_most(&self, other: &Self) -> (r: bool)
        ensures
            r == Self::not_after(self@, other@),
    ;
}

/// What the values of a list stand for.
pub open spec fn views<T: Ordered>(v: Seq<T>) -> Seq<T::V> {
    v.map_values(|t: T| t@)
}

/// `s`, which is sorted, with `x` behind everything that it does not come before.
pub open spec fn inserted<T: Ordered>(s: Seq<T::V>, x: T::V) -> Seq<T::V>
    decreases s.len(),
{
    if s.len() == 0 || T::not_after(s.last(), x) {
        s.push(x)
    } else {
        inserted::<T>(s.drop_last(), x).push(s.last())
    }
}

/// The values of `s` in their order; equal ones stay in the order they had.
pub open spec fn sorted<T: Ordered>(s: Seq<T::V>) -> Seq<T::V>
    decreases s.len(),
{
    if s.len() == 0 {
        s
    } else {
        inserted::<T>(sorted::<T>(s.drop_last()), s.last())
    }
}

/// No value comes before an earlier one.
pub open spec fn in_order<T: Ordered>(s: Seq<T::V>) -> bool {
    forall|i: int, j: int| 0 <= i <= j < s.len() ==> T::not_after(#[trigger] s[i], #[trigger] s[j])
}

proof fn lemma_le_reflexive<T: Ordered>(a: T::V)
    ensures
        T::not_after(a, a),
{
    T::not_after_total(a, a);
}

/// Where the new value goes: behind the last value that it does not come before.
proof fn lemma_inserted_at<T: Ordered>(s: Seq<T::V>, x: T::V, at: int)
    requires
        0 <= at <= s.len(),
        forall|i: int| 0 <= i < at ==> T::not_after(#[trigger] s[i], x),
        forall|i: int| at <= i < s.len() ==> !T::not_after(#[trigger] s[i], x),
    ensures
        inserted::<T>(s, x) == s.insert(at, x),
    decreases s.len(),
{
    if s.len() == 0 || T::not_after(s.last(), x) {
        assert(at == s.len());
        assert(s.insert(at, x) =~= s.push(x));
    } else {
        assert(at < s.len());
        let front = s.drop_last();
        assert forall|i: int| 0 <= i < at implies T::not_after(#[trigger] front[i], x) by {
            assert(front[i] == s[i]);
        }
        assert forall|i: int| at <= i < front.len() implies !T::not_after(#[trigger] front[i], x) by {
            assert(front[i] == s[i]);
        }
        lemma_inserted_at::<T>(front, x, at);
        assert(s.insert(at, x) =~= front.insert(at, x).push(s.last()));
    }
}

proof fn lemma_inserted_in_order<T: Ordered>(s: Seq<T::V>, x: T::V)
    requires
        in_order::<T>(s),
    ensures
        in_order::<T>(inserted::<T>(s, x)),
        inserted::<T>(s, x).len() == s.len() + 1,
        inserted::<T>(s, x).to_multiset() == s.to_multiset().insert(x),
        forall|y: T::V|
            (forall|i: int| 0 <= i < s.len() ==> T::not_after(#[trigger] s[i], y)) && T::not_after(x, y)
                ==> forall|i: int|
                0 <= i < s.len() + 1 ==> T::not_after(#[trigger] inserted::<T>(s, x)[i], y),
    decreases s.len(),
{
    broadcast use vstd::seq_lib::group_to_multiset_ensures;

    let r = inserted::<T>(s, x);
    if s.len() == 0 || T::not_after(s.last(), x) {
        lemma_le_reflexive::<T>(x);
        assert forall|i: int, j: int| 0 <= i <= j < r.len() implies T::not_after(
            #[trigger] r[i],
            #[trigger] r[j],
        ) by {
            if j == s.len() && i < j {
                assert(T::not_after(s[i], s[s.len() - 1]));
                T::not_after_transitive(s[i], s.last(), x);
            }
        }
    } else {
        let front = s.drop_last();
        let last = s.last();
        T::not_after_total(x, last);
        lemma_le_reflexive::<T>(last);
        assert forall|i: int, j: int| 0 <= i <= j < front.len() implies T::not_after(
            #[trigger] front[i],
            #[trigger] front[j],
        ) by {
            assert(T::not_after(s[i], s[j]));
        }
        lemma_inserted_in_order::<T>(front, x);
        assert forall|i: int| 0 <= i < front.len() implies T::not_after(#[trigger] front[i], last) by {
            assert(T::not_after(s[i], s[s.len() - 1]));
        }
        assert(s =~= front.push(last));
        assert(r.to_multiset() =~= s.to_multiset().insert(x));
        assert forall|y: T::V|
            (forall|i: int| 0 <= i < s.len() ==> T::not_after(#[trigger] s[i], y)) && T::not_after(
                x,
                y,
            ) implies forall|i: int| 0 <= i < s.len() + 1 ==> T::not_after(#[trigger] r[i], y) by {
            assert forall|i: int| 0 <= i < front.len() implies T::not_after(#[trigger] front[i], y) by {
                assert(front[i] == s[i]);
            }
            assert(T::not_after(s[s.len() - 1], y));
        }
    }
}

/// A sorted list is in order, and holds each value as often as the list did.
pub proof fn law_sorted<T: Ordered>(s: Seq<T::V>)
    ensures
        in_order::<T>(sorted::<T>(s)),
        sorted::<T>(s).to_multiset() == s.to_multiset(),
        sorted::<T>(s).len() == s.len(),
    decreases s.len(),
{
    broadcast use vstd::seq_lib::group_to_multiset_ensures;

    if s.len() > 0 {
        law_sorted::<T>(s.drop_last());
        lemma_inserted_in_order::<T>(sorted::<T>(s.drop_last()), s.last());
        assert(s =~= s.drop_last().push(s.last()));
    }
}

/// Neither value comes before the other.
pub open spec fn alike<T: Ordered>(a: T::V, b: T::V) -> bool {
    T::not_after(a, b) && T::not_after(b, a)
}

/// The values of `s` that are ordered like `x`, as they stand in `s`.
pub open spec fn those_alike<T: Ordered>(s: Seq<T::V>, x: T::V) -> Seq<T::V>
    decreases s.len(),
{
    if s.len() == 0 {
        s
    } else if alike::<T>(s.last(), x) {
        those_alike::<T>(s.drop_last(), x).push(s.last())
    } else {
        those_alike::<T>(s.drop_last(), x)
    }
}

proof fn lemma_inserted_alike<T: Ordered>(s: Seq<T::V>, x: T::V, y: T::V)
    ensures
        those_alike::<T>(inserted::<T>(s, x), y) == those_alike::<T>(s.push(x), y),
    decreases s.len(),
{
    reveal_with_fuel(those_alike, 3);
    if s.len() > 0 && !T::not_after(s.last(), x) {
        let front = s.drop_last();
        lemma_inserted_alike::<T>(front, x, y);
        assert(inserted::<T>(front, x).push(s.last()).drop_last() =~= inserted::<T>(front, x));
        assert(front.push(x).drop_last() =~= front);
        assert(s.push(x).drop_last() =~= s);
        if alike::<T>(s.last(), y) && alike::<T>(x, y) {
            T::not_after_transitive(s.last(), y, x);
        }
    }
}

/// Values that are ordered alike stay in the order they had.
pub proof fn law_sorted_is_stable<T: Ordered>(s: Seq<T::V>, x: T::V)
    ensures
        those_alike::<T>(sorted::<T>(s), x) == those_alike::<T>(s, x),
    decreases s.len(),
{
    if s.len() > 0 {
        let front = s.drop_last();
        law_sorted_is_stable::<T>(front, x);
        lemma_inserted_alike::<T>(sorted::<T>(front), s.last(), x);
        assert(sorted::<T>(front).push(s.last()).drop_last() =~= sorted::<T>(front));
    }
}

/// The position behind the values that `x` does not come before, in a list in order.
fn position<T: Ordered>(v: &Vec<T>, x: &T) -> (r: usize)
    requires
        in_order::<T>(views(v@)),
    ensures
        r <= v@.len(),
        forall|i: int| 0 <= i < r ==> T::not_after(#[trigger] views(v@)[i], x@),
        forall|i: int| r <= i < v@.len() ==> !T::not_after(#[trigger] views(v@)[i], x@),
{
    let mut low: usize = 0;
    let mut high: usize = v.len();
    while low < high
        invariant
            low <= high <= v@.len(),
            in_order::<T>(views(v@)),
            forall|i: int| 0 <= i < low ==> T::not_after(#[trigger] views(v@)[i], x@),
            forall|i: int| high <= i < v@.len() ==> !T::not_after(#[trigger] views(v@)[i], x@),
        decreases high - low,
    {
        let mid: usize = low + (high - low) / 2;
        let ghost s = views(v@);
        assert(s[mid as int] == v@[mid as int]@);
        if v[mid].at_most(x) {
            assert forall|i: int| 0 <= i < mid + 1 implies T::not_after(#[trigger] s[i], x@) by {
                assert(T::not_after(s[i], s[mid as int]));
                T::not_after_transitive(s[i], s[mid as int], x@);
            }
            low = mid + 1;
        } else {
            assert forall|i: int| mid <= i < v@.len() implies !T::not_after(#[trigger] s[i], x@) by {
                if T::not_after(s[i], x@) {
                    assert(T::not_after(s[mid as int], s[i]));
                    T::not_after_transitive(s[mid as int], s[i], x@);
                }
            }
            high = mid;
        }
    }
    low
}

/// The values in their order.
pub fn sort<T: Ordered>(v: Vec<T>) -> (r: Vec<T>)
    ensures
        views(r@) == sorted::<T>(views(v@)),
{
    let ghost all = views(v@);
    let mut out: Vec<T> = Vec::new();
    assert(views(out@) =~= sorted::<T>(all.take(0)));
    for t in it: v
        invariant
            all == views(it.seq()),
            views(out@) == sorted::<T>(all.take(it.index())),
    {
        proof {
            law_sorted::<T>(all.take(it.index()));
            assert(all.take(it.index() + 1).drop_last() =~= all.take(it.index()));
            assert(all.take(it.index() + 1).last() == t@);
        }
        let at: usize = position(&out, &t);
        let ghost before = out@;
        let ghost x = t@;
        out.insert(at, t);
        proof {
            lemma_inserted_at::<T>(views(before), x, at as int);
            assert(views(out@) =~= views(before).insert(at as int, x));
        }
    }
    assert(all.take(all.len() as int) =~= all);
    out
}

impl Ordered for String {
    open spec fn not_after(a: Seq<char>, b: Seq<char>) -> bool {
        text_le(a, b)
    }

    proof fn not_after_total(a: Seq<char>, b: Seq<char>) {
        lemma_text_le_total(a, b);
        assert(Self::not_after(a, b) == text_le(a, b));
        assert(Self::not_after(b, a) == text_le(b, a));
    }

    proof fn not_after_transitive(a: Seq<char>, b: Seq<char>, c: Seq<char>) {
        lemma_text_le_transitive(a, b, c);
    }

    fn at_most(&self, other: &Self) -> (r: bool) {
        text_at_most(self.as_str(), other.as_str())
    }
}

/// A list is in order just where no value stands before one that comes before it, and
/// what its values stand for stands in their places.
pub proof fn law_in_order<T: Ordered>(s: Seq<T::V>, v: Seq<T>)
    ensures
        in_order::<T>(s) <==> forall|i: int, j: int|
            0 <= i <= j < s.len() ==> T::not_after(#[trigger] s[i], #[trigger] s[j]),
        views(v).len() == v.len(),
        forall|i: int| 0 <= i < v.len() ==> #[trigger] views(v)[i] == v[i]@,
{
}

/// Strings are ordered as their texts.
pub proof fn law_string_order(a: Seq<char>, b: Seq<char>)
    ensures
        <String as Ordered>::not_after(a, b) <==> text_le(a, b),
{
}

} // verus!
