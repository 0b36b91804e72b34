//! Lists sorted by name.

use vstd::prelude::*;
use crate::text::{self, comes_before};

verus! {

/// What can be sorted by a name.
pub trait Named: View + Sized {
    /// The name of what is seen of a value.
    spec fn name_of(v: Self::V) -> Seq<char>;

    /// The name to sort by.
    fn sort_name(&self) -> (r: &str)
        ensures
            r@ == Self::name_of(self@),
    ;
}

impl Named for String {
    open spec fn name_of(v: Seq<char>) -> Seq<char> {
        v
    }

    fn sort_name(&self) -> (r: &str) {
        self.as_str()
    }
}

/// What is seen of each value.
pub open spec fn views<T: View>(v: Seq<T>) -> Seq<T::V> {
    v.map_values(|x: T| x@)
}

/// `x` put into a sorted list, after those whose names do not follow its own.
pub open spec fn insert<T: Named>(list: Seq<T::V>, x: T::V) -> Seq<T::V>
    decreases list.len(),
{
    if list.len() > 0 && text::before(T::name_of(x), T::name_of(list.last())) {
        insert::<T>(list.drop_last(), x).push(list.last())
    } else {
        list.push(x)
    }
}

/// The list in the order of the names; those with one name keep their order.
pub open spec fn by_name<T: Named>(list: Seq<T::V>) -> Seq<T::V>
    decreases list.len(),
{
    if list.len() == 0 {
        Seq::empty()
    } else {
        insert::<T>(by_name::<T>(list.drop_last()), list.last())
    }
}

/// Put a value into a sorted list.
pub fn insert_sorted<T: Named>(list: &mut Vec<T>, x: T)
    ensures
        views(final(list)@) == insert::<T>(views(old(list)@), x@),
{
    let ghost all = views(list@);
    let ghost inserted = x@;
    let mut i: usize = list.len();
    assert(all.take(i as int) =~= all);
    assert(insert::<T>(all, x@) =~= insert::<T>(all.take(i as int), x@) + all.skip(i as int));
    while i > 0 && comes_before(x.sort_name(), list[i - 1].sort_name())
        invariant
            i <= list.len(),
            inserted == x@,
            all == views(list@),
            insert::<T>(all, x@) == insert::<T>(all.take(i as int), x@) + all.skip(i as int),
        decreases i,
    {
        assert(all.take(i as int).last() == list@[i - 1]@);
        assert(all.take(i as int).drop_last() =~= all.take(i - 1));
        assert(insert::<T>(all.take(i as int), x@) + all.skip(i as int) =~= insert::<T>(
            all.take(i - 1),
            x@,
        ) + all.skip(i - 1));
        i = i - 1;
    }
    assert(i > 0 ==> all.take(i as int).last() == list@[i - 1]@);
    list.insert(i, x);
    assert(views(list@) =~= all.take(i as int).push(inserted) + all.skip(i as int));
}

/// Sort a list by name.
pub fn sort_by_name<T: Named>(list: Vec<T>) -> (r: Vec<T>)
    ensures
        views(r@) == by_name::<T>(views(list@)),
{
    let ghost all = views(list@);
    let ghost mut done: int = 0;
    let mut rest = list;
    let mut out: Vec<T> = Vec::new();
    assert(all.skip(0) =~= all);
    assert(views(out@) =~= by_name::<T>(all.take(0)));
    while rest.len() > 0
        invariant
            0 <= done <= all.len(),
            views(rest@) == all.skip(done),
            views(out@) == by_name::<T>(all.take(done)),
        decreases rest@.len(),
    {
        let ghost left = rest@;
        let x: T = rest.remove(0);
        proof {
            assert(views(left).len() == left.len());
            assert(all.skip(done).len() == all.len() - done);
            assert(all.skip(done)[0] == views(left)[0]);
            assert(all[done] == x@);
            assert(all.take(done + 1).drop_last() =~= all.take(done));
            assert(all.take(done + 1).last() == x@);
            assert(views(rest@) =~= views(left).drop_first());
            assert(all.skip(done).drop_first() =~= all.skip(done + 1));
        }
        insert_sorted(&mut out, x);
        proof {
            done = done + 1;
        }
    }
    assert(all.take(done) =~= all);
    out
}

}
