use vstd::prelude::*;
use crate::num::{Number, NumberOps, one, zero};
use crate::digits::Digits;

verus! {

/// `lo` and `hi` are elements of `s`, the least and the greatest by value.
pub open spec fn is_min_max<T: Number>(s: Seq<T>, lo: T, hi: T) -> bool {
    &&& s.contains(lo)
    &&& s.contains(hi)
    &&& forall|i: int| 0 <= i < s.len() ==> lo.value() <= #[trigger] s[i].value() <= hi.value()
}

/// Extensions for finite sequences of numbers.
pub trait Iter<T: Number> {
    /// The elements, in order.
    spec fn items(&self) -> Seq<T>;

    /// The least and the greatest element, or `None` when there is none.
    fn min_max(&self) -> (r: Option<(T, T)>)
        ensures
            r.is_none() <==> self.items().len() == 0,
            r matches Some((lo, hi)) ==> is_min_max(self.items(), lo, hi),
    ;

    /// The first `N` elements as an array, or `None` when there are fewer.
    fn collect_array<const N: usize>(&self) -> (r: Option<[T; N]>)
        ensures
            r.is_none() <==> self.items().len() < N,
            r matches Some(a) ==> forall|i: int| 0 <= i < N ==> a@[i] == self.items()[i],
    ;

    /// Copies the leading elements into `array`, as many as fit; slots past the
    /// last element are left as they were.
    fn collect_into_array<const N: usize>(&self, array: &mut [T; N])
        ensures
            final(array)@.len() == N,
            forall|i: int| 0 <= i < N && i < self.items().len() ==> final(array)@[i] == self.items()[i],
            forall|i: int| self.items().len() <= i < N ==> final(array)@[i] == old(array)@[i],
    ;
}

impl<T: Number> Iter<T> for Vec<T> {
    open spec fn items(&self) -> Seq<T> {
        self@
    }

    fn min_max(&self) -> (r: Option<(T, T)>) {
        if self.len() == 0 {
            return None;
        }
        let mut lo = self[0];
        let mut hi = self[0];
        let mut i: usize = 1;
        let ghost mut li: int = 0;
        let ghost mut hi_at: int = 0;
        while i < self.len()
            invariant
                1 <= i <= self@.len(),
                0 <= li < i && self@[li] == lo,
                0 <= hi_at < i && self@[hi_at] == hi,
                forall|j: int| 0 <= j < i ==> lo.value() <= #[trigger] self@[j].value() <= hi.value(),
            decreases self@.len() - i,
        {
            let x = self[i];
            if x.less_than(lo) {
                lo = x;
                proof { li = i as int; }
            }
            if hi.less_than(x) {
                hi = x;
                proof { hi_at = i as int; }
            }
            i = i + 1;
        }
        assert(self@.contains(lo) && self@.contains(hi));
        Some((lo, hi))
    }

    fn collect_array<const N: usize>(&self) -> (r: Option<[T; N]>) {
        if self.len() < N {
            return None;
        }
        let mut a: [T; N] = vstd::array::array_fill_for_copy_types(zero::<T>());
        self.collect_into_array(&mut a);
        Some(a)
    }

    fn collect_into_array<const N: usize>(&self, array: &mut [T; N]) {
        let mut i: usize = 0;
        while i < N && i < self.len()
            invariant
                i <= N,
                i <= self@.len(),
                array@.len() == N,
                forall|j: int| 0 <= j < i ==> array@[j] == self@[j],
                forall|j: int| i <= j < N ==> array@[j] == old(array)@[j],
            decreases N - i,
        {
            array[i] = self[i];
            i = i + 1;
        }
    }
}

impl<T: Number> Iter<u8> for Digits<T> {
    open spec fn items(&self) -> Seq<u8> {
        self.remaining()
    }

    fn min_max(&self) -> (r: Option<(u8, u8)>) {
        self.to_vec().min_max()
    }

    fn collect_array<const N: usize>(&self) -> (r: Option<[u8; N]>) {
        self.to_vec().collect_array()
    }

    fn collect_into_array<const N: usize>(&self, array: &mut [u8; N]) {
        self.to_vec().collect_into_array(array)
    }
}

/// The sum of the values of `s`.
pub open spec fn seq_sum<T: Number>(s: Seq<T>) -> int
    decreases s.len(),
{
    if s.len() == 0 { 0 } else { seq_sum(s.drop_last()) + s.last().value() }
}

/// The product of the values of `s`.
pub open spec fn seq_product<T: Number>(s: Seq<T>) -> int
    decreases s.len(),
{
    if s.len() == 0 { 1 } else { seq_product(s.drop_last()) * s.last().value() }
}

/// The sum of `items`, added from the first; every partial sum must be representable.
pub fn sum<T: Number>(items: &Vec<T>) -> (r: T)
    requires
        forall|k: int| 0 <= k <= items@.len() ==> T::spec_min() <= #[trigger] seq_sum(items@.take(k)) <= T::spec_max(),
    ensures
        r.value() == seq_sum(items@),
{
    let mut acc = zero::<T>();
    let mut i: usize = 0;
    proof { assert(items@.take(0) =~= Seq::<T>::empty()); }
    while i < items.len()
        invariant
            i <= items@.len(),
            acc.value() == seq_sum(items@.take(i as int)),
            forall|k: int| 0 <= k <= items@.len() ==> T::spec_min() <= #[trigger] seq_sum(items@.take(k)) <= T::spec_max(),
        decreases items@.len() - i,
    {
        proof {
            assert(items@.take(i + 1).drop_last() =~= items@.take(i as int));
            assert(seq_sum(items@.take(i + 1)) <= T::spec_max());
        }
        acc = acc.add(items[i]);
        i = i + 1;
    }
    proof { assert(items@.take(items@.len() as int) =~= items@); }
    acc
}

/// The product of `items`, multiplied from the first; every partial product must be
/// representable.
pub fn product<T: Number>(items: &Vec<T>) -> (r: T)
    requires
        forall|k: int| 0 <= k <= items@.len() ==> T::spec_min() <= #[trigger] seq_product(items@.take(k)) <= T::spec_max(),
    ensures
        r.value() == seq_product(items@),
{
    let mut acc = one::<T>();
    let mut i: usize = 0;
    proof { assert(items@.take(0) =~= Seq::<T>::empty()); }
    while i < items.len()
        invariant
            i <= items@.len(),
            acc.value() == seq_product(items@.take(i as int)),
            forall|k: int| 0 <= k <= items@.len() ==> T::spec_min() <= #[trigger] seq_product(items@.take(k)) <= T::spec_max(),
        decreases items@.len() - i,
    {
        proof {
            assert(items@.take(i + 1).drop_last() =~= items@.take(i as int));
            assert(seq_product(items@.take(i + 1)) <= T::spec_max());
        }
        acc = acc.mul(items[i]);
        i = i + 1;
    }
    proof { assert(items@.take(items@.len() as int) =~= items@); }
    acc
}

/// Hands the least and the greatest element of `items` to `f`; `None` when there is none.
pub fn min_max_pipe<T: Number, U, F: Fn(T, T) -> U>(items: &Vec<T>, f: F) -> (r: Option<U>)
    requires
        forall|a: T, b: T| #[trigger] f.requires((a, b)),
    ensures
        r.is_none() <==> items@.len() == 0,
        r.is_some() ==> exists|lo: T, hi: T|
            is_min_max(items@, lo, hi) && #[trigger] f.ensures((lo, hi), r.unwrap()),
{
    match items.min_max() {
        None => None,
        Some((lo, hi)) => {
            let u = f(lo, hi);
            let r = Some(u);
            assert(is_min_max(items@, lo, hi));
            assert(f.ensures((lo, hi), r.unwrap()));
            r
        },
    }
}

} // verus!
