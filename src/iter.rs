//! A bar that advances with an iterator.
use crate::pb::{ProgressBar, ProgressSink, sat_add};
use vstd::prelude::*;
use vstd::std_specs::iter::IteratorSpec;

verus! {

/// Relies on std's `Iterator::size_hint`: bounds on the number of items
/// still to come, which depend on the iterator's own implementation, so
/// nothing is stated of them.
#[verifier::external_body]
fn size_hint_of<I: Iterator>(iter: &I) -> (usize, Option<usize>) {
    iter.size_hint()
}

/// An iterator whose bar counts the items it hands out.
pub struct PbIter<T, I> {
    iter: I,
    progress_bar: ProgressBar<T>,
}

impl<T, I> PbIter<T, I> {
    /// The bar.
    pub closed spec fn bar(&self) -> ProgressBar<T> {
        self.progress_bar
    }

    /// The wrapped iterator.
    pub closed spec fn inner(&self) -> I {
        self.iter
    }
}

impl<T: ProgressSink, I: Iterator> PbIter<T, I> {
    /// Wraps `iter`, with a bar on `handle` whose total is the number of
    /// items that `iter` announces.
    pub fn on(handle: T, iter: I) -> (r: Self)
        ensures
            r.bar().wf(),
            r.bar().current_spec() == 0,
            r.bar().default_display(),
            r.bar().handle_spec() == handle,
            r.bar().emitted_spec() == handle.taken(),
            r.inner() == iter,
    {
        let size = size_hint_of(&iter).0;
        PbIter { iter, progress_bar: ProgressBar::on(handle, size as u64) }
    }

    /// The wrapped iterator's bounds on the number of items still to come.
    pub fn size_hint(&self) -> (usize, Option<usize>) {
        size_hint_of(&self.iter)
    }

    /// The next item of the wrapped iterator; the bar counts it.
    pub fn next(&mut self) -> (r: Option<I::Item>)
        requires
            old(self).bar().wf(),
        ensures
            r is Some ==> ProgressBar::advanced(
                old(self).bar(),
                final(self).bar(),
                sat_add(old(self).bar().current_spec(), 1),
            ),
            r is None ==> final(self).bar() == old(self).bar(),
            old(self).inner().obeys_prophetic_iter_laws() ==> (r is Some <==> old(
                self,
            ).inner().remaining().len() > 0),
            old(self).inner().obeys_prophetic_iter_laws() && r is Some ==> r == Some(
                old(self).inner().remaining()[0],
            ),
    {
        match self.iter.next() {
            Some(i) => {
                self.progress_bar.inc();
                Some(i)
            },
            None => None,
        }
    }
}

} // verus!
