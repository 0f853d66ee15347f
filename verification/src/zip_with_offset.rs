//! Zips two sequences after delaying each by its own offset: before a
//! stream's delay has elapsed, and after it is exhausted, its side of the
//! pair is `None`.
use vstd::prelude::*;

verus! {

/// What the zip holds at step `i` for a stream of length `len` delayed by
/// `delay`.
pub open spec fn delayed_at<T>(s: Seq<T>, delay: int, i: int) -> Option<T> {
    if delay <= i < delay + s.len() {
        Some(s[i - delay])
    } else {
        None
    }
}

pub fn zip_with_offset<A: Copy, B: Copy>(
    a: &Vec<A>,
    a_delay: usize,
    b: &Vec<B>,
    b_delay: usize,
) -> (r: Vec<(Option<A>, Option<B>)>)
    requires
        a@.len() + a_delay <= usize::MAX,
        b@.len() + b_delay <= usize::MAX,
    ensures
        r@.len() == vstd::math::max(a@.len() + a_delay, b@.len() + b_delay),
        forall|i: int|
            0 <= i < r@.len() ==> #[trigger] r@[i] == (
                delayed_at(a@, a_delay as int, i),
                delayed_at(b@, b_delay as int, i),
            ),
{
    let a_end = a.len() + a_delay;
    let b_end = b.len() + b_delay;
    let n = if a_end >= b_end {
        a_end
    } else {
        b_end
    };
    let mut out: Vec<(Option<A>, Option<B>)> = Vec::new();
    let mut i: usize = 0;
    while i < n
        invariant
            i <= n,
            a_end == a@.len() + a_delay,
            b_end == b@.len() + b_delay,
            n == vstd::math::max(a@.len() + a_delay, b@.len() + b_delay),
            out@.len() == i,
            forall|j: int|
                0 <= j < i ==> #[trigger] out@[j] == (
                    delayed_at(a@, a_delay as int, j),
                    delayed_at(b@, b_delay as int, j),
                ),
        decreases n - i,
    {
        let av: Option<A> = if i >= a_delay && i < a_end {
            Some(a[i - a_delay])
        } else {
            None
        };
        let bv: Option<B> = if i >= b_delay && i < b_end {
            Some(b[i - b_delay])
        } else {
            None
        };
        out.push((av, bv));
        i = i + 1;
    }
    out
}

} // verus!
