//! The safe-iteration layer: a generic wrapper that turns the raw, stateful
//! cursor protocol into a lazily evaluated, borrow-safe sequence.

use core::marker::PhantomData;
use vstd::prelude::*;

verus! {

/// The contract every raw cursor obeys.
///
/// A raw cursor ranges over a fixed sequence of entries and holds a current
/// position (`pos()`); `elems()` gives the abstract contents of the entries,
/// one per position. A freshly opened cursor is *already positioned* at its
/// first entry — there is no initial advance; `pos()` equals `elems().len()`
/// exactly when the cursor is at its end marker. `next` is only defined while
/// not at end, and its effect is observable only through a later
/// `is_end`/`as_view`. `release` gives the underlying resource back; the
/// wrapper's consuming operations call it exactly once, when they drain the
/// cursor.
pub trait RawIterator: Sized {
    type View: View;

    /// The abstract contents of the entries the cursor ranges over, one per
    /// position.
    spec fn elems(&self) -> Seq<<Self::View as View>::V>;

    /// The current position within `elems()`.
    spec fn pos(&self) -> int;

    /// Well-formedness of the cursor state.
    spec fn inv(&self) -> bool;

    /// A well-formed cursor sits on a valid position or on the end marker.
    proof fn lemma_inv_bounds(&self)
        requires
            self.inv(),
        ensures
            0 <= self.pos() <= self.elems().len(),
    ;

    /// True iff the cursor has no current item. No side effects.
    fn is_end(&self) -> (r: bool)
        requires
            self.inv(),
        ensures
            r == (self.pos() == self.elems().len()),
    ;

    /// Advance to the next position. Calling this at the end is a contract
    /// violation, which the wrapper never commits.
    fn next(&mut self)
        requires
            old(self).inv(),
            old(self).pos() < old(self).elems().len(),
        ensures
            final(self).inv(),
            final(self).elems() == old(self).elems(),
            final(self).pos() == old(self).pos() + 1,
    ;

    /// Extract a view of the current position; only defined while not at
    /// end. The view's abstract value is the entry under the cursor.
    fn as_view(&self) -> (v: Self::View)
        requires
            self.inv(),
            0 <= self.pos() < self.elems().len(),
        ensures
            v@ == self.elems()[self.pos()],
    ;

    /// Give the underlying resource back. The default suits cursors whose
    /// resource needs no explicit return; owners of a real resource override
    /// it.
    fn release(&mut self)
        no_unwind
    {
    }
}

/// Wraps a raw cursor into a lazy, single-pass sequence of views.
///
/// The raw protocol's quirk — a fresh cursor already sits on its first item —
/// is normalized here into an ordinary "pull the next item or finish"
/// contract: `first` records whether the current position has been handed out
/// yet. The consuming operations release the raw cursor once they have
/// drained it; a cursor abandoned earlier returns its resource when it is
/// dropped, which costs nothing for the in-memory cursors this crate builds.
pub struct CIterator<R: RawIterator> {
    pub first: bool,
    pub raw: R,
}

/// A view handed out by [`CIterator::next`], valid strictly until the next
/// call to `next` on the originating adapter: the borrow it carries keeps the
/// adapter frozen, so reading a stale view is a compile-time error.
pub struct Borrowed<'i, R: 'i + RawIterator> {
    it: PhantomData<&'i CIterator<R>>,
    val: R::View,
}

impl<'i, R: RawIterator> View for Borrowed<'i, R> {
    type V = <R::View as View>::V;

    closed spec fn view(&self) -> <R::View as View>::V {
        self.val@
    }
}

impl<'i, R: RawIterator> Borrowed<'i, R> {
    /// Read access to the produced view.
    pub fn get(&self) -> (v: &R::View)
        ensures
            v@ == self@,
    {
        &self.val
    }
}

impl<R: RawIterator> CIterator<R> {
    /// Well-formedness: the wrapped raw cursor is well-formed.
    pub open spec fn inv(&self) -> bool {
        self.raw.inv()
    }

    /// The entries this adapter has yet to produce. The entry under the
    /// cursor counts only while it has not been handed out yet.
    pub open spec fn remaining(&self) -> Seq<<R::View as View>::V> {
        if self.first {
            self.raw.elems().skip(self.raw.pos())
        } else if self.raw.pos() < self.raw.elems().len() {
            self.raw.elems().skip(self.raw.pos() + 1)
        } else {
            Seq::empty()
        }
    }

    /// Pull the next view, or nothing once the underlying cursor is spent.
    /// The end marker itself is never surfaced as an item.
    pub fn next<'i>(&'i mut self) -> (r: Option<Borrowed<'i, R>>)
        requires
            old(self).inv(),
        ensures
            final(self).inv(),
            final(self).raw.elems() == old(self).raw.elems(),
            match r {
                Option::None => {
                    &&& old(self).remaining().len() == 0
                    &&& final(self).remaining().len() == 0
                },
                Option::Some(b) => {
                    &&& old(self).remaining().len() > 0
                    &&& b@ == old(self).remaining()[0]
                    &&& final(self).remaining() == old(self).remaining().skip(1)
                },
            },
    {
        proof {
            self.raw.lemma_inv_bounds();
        }
        if self.raw.is_end() {
            return None;
        }
        if !self.first {
            self.raw.next();
        }
        self.first = false;
        proof {
            self.raw.lemma_inv_bounds();
        }
        if self.raw.is_end() {
            None
        } else {
            let v = self.raw.as_view();
            proof {
                assert(self.remaining() =~= old(self).remaining().skip(1));
            }
            Some(Borrowed { it: PhantomData, val: v })
        }
    }

    /// Drain the adapter without materializing any views: only the end-test
    /// and the advance are exercised, never `as_view`.
    pub fn count(self) -> (r: usize)
        requires
            self.inv(),
            self.remaining().len() <= usize::MAX,
        ensures
            r == self.remaining().len(),
    {
        let ghost total = self.remaining().len();
        let mut it = self;
        proof {
            it.raw.lemma_inv_bounds();
        }
        let mut n: usize = 0;
        if it.raw.is_end() {
            it.raw.release();
            return 0;
        }
        if !it.first {
            it.raw.next();
        }
        while !it.raw.is_end()
            invariant
                it.raw.inv(),
                0 <= it.raw.pos() <= it.raw.elems().len(),
                n + it.raw.elems().len() - it.raw.pos() == total,
                total <= usize::MAX,
            decreases it.raw.elems().len() - it.raw.pos(),
        {
            it.raw.next();
            n = n + 1;
        }
        it.raw.release();
        n
    }

    /// True iff some produced view satisfies the predicate; short-circuits at
    /// the first hit, consuming the adapter.
    #[verifier::loop_isolation(false)]
    pub fn any<F: Fn(&R::View) -> bool>(self, f: F) -> (r: bool)
        requires
            self.inv(),
            forall|i: int|
                #![trigger self.remaining()[i]]
                0 <= i < self.remaining().len() ==> accepts_elem::<R, bool, F>(
                    f,
                    self.remaining()[i],
                ),
        ensures
            r ==> exists|i: int|
                #![trigger self.remaining()[i]]
                0 <= i < self.remaining().len() && yields_elem::<R, bool, F>(
                    f,
                    self.remaining()[i],
                    true,
                ),
            !r ==> forall|i: int|
                #![trigger self.remaining()[i]]
                0 <= i < self.remaining().len() ==> yields_elem::<R, bool, F>(
                    f,
                    self.remaining()[i],
                    false,
                ),
    {
        let ghost orig = self.remaining();
        let mut it = self;
        let ghost mut k: int = 0;
        loop
            invariant
                it.inv(),
                0 <= k <= orig.len(),
                it.remaining() =~= orig.skip(k),
                forall|j: int|
                    #![trigger orig[j]]
                    0 <= j < k ==> yields_elem::<R, bool, F>(f, orig[j], false),
            decreases orig.len() - k,
        {
            let stepped = it.next();
            match stepped {
                None => {
                    proof {
                        assert(orig.skip(k).len() == orig.len() - k);
                        assert(k == orig.len());
                    }
                    it.raw.release();
                    return false;
                },
                Some(b) => {
                    proof {
                        assert(b@ == orig[k]);
                        assert(accepts_elem::<R, bool, F>(f, orig[k]));
                    }
                    let hit = f(&b.val);
                    proof {
                        let w = b.val;
                        assert(w@ == orig[k] && call_ensures(f, (&w,), hit));
                        assert(yields_elem::<R, bool, F>(f, orig[k], hit));
                    }
                    if hit {
                        it.raw.release();
                        return true;
                    }
                },
            }
            proof {
                k = k + 1;
                assert(it.remaining() =~= orig.skip(k));
            }
        }
    }

    /// True iff every produced view satisfies the predicate; short-circuits
    /// at the first miss, consuming the adapter.
    #[verifier::loop_isolation(false)]
    pub fn all<F: Fn(&R::View) -> bool>(self, f: F) -> (r: bool)
        requires
            self.inv(),
            forall|i: int|
                #![trigger self.remaining()[i]]
                0 <= i < self.remaining().len() ==> accepts_elem::<R, bool, F>(
                    f,
                    self.remaining()[i],
                ),
        ensures
            r ==> forall|i: int|
                #![trigger self.remaining()[i]]
                0 <= i < self.remaining().len() ==> yields_elem::<R, bool, F>(
                    f,
                    self.remaining()[i],
                    true,
                ),
            !r ==> exists|i: int|
                #![trigger self.remaining()[i]]
                0 <= i < self.remaining().len() && yields_elem::<R, bool, F>(
                    f,
                    self.remaining()[i],
                    false,
                ),
    {
        let ghost orig = self.remaining();
        let mut it = self;
        let ghost mut k: int = 0;
        loop
            invariant
                it.inv(),
                0 <= k <= orig.len(),
                it.remaining() =~= orig.skip(k),
                forall|j: int|
                    #![trigger orig[j]]
                    0 <= j < k ==> yields_elem::<R, bool, F>(f, orig[j], true),
            decreases orig.len() - k,
        {
            let stepped = it.next();
            match stepped {
                None => {
                    proof {
                        assert(orig.skip(k).len() == orig.len() - k);
                        assert(k == orig.len());
                    }
                    it.raw.release();
                    return true;
                },
                Some(b) => {
                    proof {
                        assert(b@ == orig[k]);
                        assert(accepts_elem::<R, bool, F>(f, orig[k]));
                    }
                    let hit = f(&b.val);
                    proof {
                        let w = b.val;
                        assert(w@ == orig[k] && call_ensures(f, (&w,), hit));
                        assert(yields_elem::<R, bool, F>(f, orig[k], hit));
                    }
                    if !hit {
                        it.raw.release();
                        return false;
                    }
                },
            }
            proof {
                k = k + 1;
                assert(it.remaining() =~= orig.skip(k));
            }
        }
    }

    /// Lazily apply `f` to each produced view.
    pub fn map<B, F: Fn(&R::View) -> B>(self, f: F) -> (r: CMap<R, F>)
        ensures
            r.it == self,
            r.f == f,
    {
        CMap { it: self, f }
    }

    /// Lazily apply `f` to each produced view, keeping only present results.
    pub fn filter_map<B, F: Fn(&R::View) -> Option<B>>(self, f: F) -> (r: CFilterMap<R, F>)
        ensures
            r.it == self,
            r.f == f,
    {
        CFilterMap { it: self, f }
    }
}

/// `f` accepts (per its precondition) every view whose abstract value is `e`.
pub open spec fn accepts_elem<R: RawIterator, B, F: Fn(&R::View) -> B>(
    f: F,
    e: <R::View as View>::V,
) -> bool {
    forall|v: R::View| #![trigger call_requires(f, (&v,))] v@ == e ==> call_requires(f, (&v,))
}

/// Per `f`'s postcondition, some view whose abstract value is `e` can make
/// `f` return `out`.
pub open spec fn yields_elem<R: RawIterator, B, F: Fn(&R::View) -> B>(
    f: F,
    e: <R::View as View>::V,
    out: B,
) -> bool {
    exists|v: R::View|
        #![trigger call_ensures(f, (&v,), out)]
        v@ == e && call_ensures(f, (&v,), out)
}

/// Lazy mapping combinator over a [`CIterator`]: applies its function to each
/// view immediately, before the next step invalidates it.
#[must_use]
pub struct CMap<R: RawIterator, F> {
    pub it: CIterator<R>,
    pub f: F,
}

impl<B, R: RawIterator, F: Fn(&R::View) -> B> CMap<R, F> {
    /// Well-formedness: the wrapped adapter is well-formed.
    pub open spec fn inv(&self) -> bool {
        self.it.inv()
    }

    /// Pull the next view and map it, or finish.
    pub fn next(&mut self) -> (r: Option<B>)
        requires
            old(self).inv(),
            forall|i: int|
                #![trigger old(self).it.remaining()[i]]
                0 <= i < old(self).it.remaining().len() ==> accepts_elem::<R, B, F>(
                    old(self).f,
                    old(self).it.remaining()[i],
                ),
        ensures
            final(self).inv(),
            final(self).f == old(self).f,
            r is None ==> old(self).it.remaining().len() == 0 && final(self).it.remaining().len()
                == 0,
            r is Some ==> old(self).it.remaining().len() > 0 && final(self).it.remaining() == old(
                self,
            ).it.remaining().skip(1) && yields_elem::<R, B, F>(
                old(self).f,
                old(self).it.remaining()[0],
                r.unwrap(),
            ),
    {
        let stepped = self.it.next();
        match stepped {
            Some(x) => {
                proof {
                    assert(accepts_elem::<R, B, F>(old(self).f, old(self).it.remaining()[0]));
                }
                let y = (self.f)(&x.val);
                proof {
                    let w = x.val;
                    assert(w@ == old(self).it.remaining()[0] && call_ensures(
                        old(self).f,
                        (&w,),
                        y,
                    ));
                    assert(yields_elem::<R, B, F>(old(self).f, old(self).it.remaining()[0], y));
                }
                Some(y)
            },
            None => None,
        }
    }

    /// Drain the combinator, materializing (and discarding) every mapped
    /// value, and report how many views were produced.
    #[verifier::loop_isolation(false)]
    pub fn count(self) -> (r: usize)
        requires
            self.inv(),
            self.it.remaining().len() <= usize::MAX,
            forall|i: int|
                #![trigger self.it.remaining()[i]]
                0 <= i < self.it.remaining().len() ==> accepts_elem::<R, B, F>(
                    self.f,
                    self.it.remaining()[i],
                ),
        ensures
            r == self.it.remaining().len(),
    {
        let ghost orig = self.it.remaining();
        let ghost f0 = self.f;
        let mut m = self;
        let ghost mut k: int = 0;
        let mut n: usize = 0;
        loop
            invariant
                m.inv(),
                m.f == f0,
                0 <= k <= orig.len(),
                m.it.remaining() =~= orig.skip(k),
                n == k,
            decreases orig.len() - k,
        {
            let stepped = m.next();
            match stepped {
                None => {
                    proof {
                        assert(orig.skip(k).len() == orig.len() - k);
                        assert(k == orig.len());
                    }
                    m.it.raw.release();
                    return n;
                },
                Some(_) => {
                    n = n + 1;
                },
            }
            proof {
                k = k + 1;
                assert(m.it.remaining() =~= orig.skip(k));
            }
        }
    }
}

/// Lazy filtering-and-mapping combinator over a [`CIterator`]: retries until
/// its function returns a present value or the sequence ends.
#[must_use]
pub struct CFilterMap<R: RawIterator, F> {
    pub it: CIterator<R>,
    pub f: F,
}

impl<B, R: RawIterator, F: Fn(&R::View) -> Option<B>> CFilterMap<R, F> {
    /// Well-formedness: the wrapped adapter is well-formed.
    pub open spec fn inv(&self) -> bool {
        self.it.inv()
    }

    /// Pull views until `f` keeps one, or the sequence ends.
    #[verifier::loop_isolation(false)]
    pub fn next(&mut self) -> (r: Option<B>)
        requires
            old(self).inv(),
            forall|i: int|
                #![trigger old(self).it.remaining()[i]]
                0 <= i < old(self).it.remaining().len() ==> accepts_elem::<R, Option<B>, F>(
                    old(self).f,
                    old(self).it.remaining()[i],
                ),
        ensures
            final(self).inv(),
            final(self).f == old(self).f,
            r is None ==> final(self).it.remaining().len() == 0 && forall|i: int|
                #![trigger old(self).it.remaining()[i]]
                0 <= i < old(self).it.remaining().len() ==> yields_elem::<R, Option<B>, F>(
                    old(self).f,
                    old(self).it.remaining()[i],
                    Option::None::<B>,
                ),
            r is Some ==> exists|i: int|
                #![trigger old(self).it.remaining()[i]]
                {
                    &&& 0 <= i < old(self).it.remaining().len()
                    &&& yields_elem::<R, Option<B>, F>(
                        old(self).f,
                        old(self).it.remaining()[i],
                        Option::Some(r.unwrap()),
                    )
                    &&& forall|j: int|
                        #![trigger old(self).it.remaining()[j]]
                        0 <= j < i ==> yields_elem::<R, Option<B>, F>(
                            old(self).f,
                            old(self).it.remaining()[j],
                            Option::None::<B>,
                        )
                    &&& final(self).it.remaining() == old(self).it.remaining().skip(i + 1)
                },
    {
        let ghost orig = self.it.remaining();
        let ghost mut k: int = 0;
        loop
            invariant
                self.inv(),
                self.f == old(self).f,
                self.it.remaining() =~= orig.skip(k),
                0 <= k <= orig.len(),
                orig =~= old(self).it.remaining(),
                forall|j: int|
                    #![trigger orig[j]]
                    0 <= j < k ==> yields_elem::<R, Option<B>, F>(
                        old(self).f,
                        orig[j],
                        Option::None::<B>,
                    ),
            decreases orig.len() - k,
        {
            let stepped = self.it.next();
            match stepped {
                Some(x) => {
                    proof {
                        assert(x@ == orig[k]);
                        assert(accepts_elem::<R, Option<B>, F>(old(self).f, orig[k]));
                    }
                    let y = (self.f)(&x.val);
                    proof {
                        let w = x.val;
                        assert(w@ == orig[k] && call_ensures(old(self).f, (&w,), y));
                        assert(yields_elem::<R, Option<B>, F>(old(self).f, orig[k], y));
                    }
                    if let Some(v) = y {
                        proof {
                            assert(self.it.remaining() =~= orig.skip(k + 1));
                        }
                        return Some(v);
                    }
                },
                None => {
                    proof {
                        assert(orig.skip(k).len() == orig.len() - k);
                        assert(k == orig.len());
                    }
                    return None;
                },
            }
            proof {
                k = k + 1;
                assert(self.it.remaining() =~= orig.skip(k));
            }
        }
    }
}

/// Law: materializing views through a mapping combinator and draining it
/// yields exactly as many items as draining the traversal itself. The
/// hypothesis is what [`CIterator::map`] guarantees of the combinator it
/// returns; both [`CIterator::count`] and [`CMap::count`] return their
/// adapter's remaining length, so the two counts agree.
pub proof fn lemma_map_count_agrees<B, R: RawIterator, F: Fn(&R::View) -> B>(
    it: CIterator<R>,
    f: F,
    m: CMap<R, F>,
)
    requires
        m.it == it,
        m.f == f,
    ensures
        m.it.remaining() == it.remaining(),
        m.it.remaining().len() == it.remaining().len(),
{
}

} // verus!
