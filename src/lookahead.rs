//! A fixed-depth peek window over a sequence of items.
use vstd::prelude::*;

verus! {

/// `s` begins with the items of `p`, in order.
pub open spec fn starts_with<T>(s: Seq<T>, p: Seq<T>) -> bool {
    p.len() <= s.len() && forall|i: int| 0 <= i < p.len() ==> s[i] == p[i]
}

/// A cursor over `items` that can look at most `N` items ahead. Once the
/// items are used up it keeps reporting the end.
#[derive(Debug)]
pub struct Lookahead<T, const N: usize> {
    items: Vec<T>,
    pos: usize,
}

impl<T, const N: usize> View for Lookahead<T, N> {
    type V = Seq<T>;

    /// The items not consumed yet.
    closed spec fn view(&self) -> Seq<T> {
        self.items@.subrange(self.pos as int, self.items@.len() as int)
    }
}

impl<T, const N: usize> Lookahead<T, N> {
    #[verifier::type_invariant]
    spec fn inv(&self) -> bool {
        self.pos <= self.items@.len()
    }
}

impl<T: Copy, const N: usize> Lookahead<T, N> {
    /// A window at the start of `items`.
    pub fn new(items: Vec<T>) -> (r: Self)
        ensures
            r@ == items@,
    {
        let r = Lookahead { items, pos: 0 };
        assert(r@ =~= r.items@);
        r
    }

    /// The item `n` places ahead, if it lies within the window and before
    /// the end.
    pub fn peek_nth(&self, n: usize) -> (r: Option<&T>)
        ensures
            match r {
                Some(x) => n < N && n < self@.len() && *x == self@[n as int],
                None => !(n < N && n < self@.len()),
            },
    {
        proof {
            use_type_invariant(self);
        }
        if n < N && n < self.items.len() - self.pos {
            Some(&self.items[self.pos + n])
        } else {
            None
        }
    }

    /// Consumes and returns the next item; at the end, returns `None` and
    /// stays there.
    pub fn next(&mut self) -> (r: Option<T>)
        ensures
            old(self)@.len() == 0 ==> r is None && final(self)@ == old(self)@,
            old(self)@.len() > 0 ==> r == Some(old(self)@[0]) && final(self)@ == old(self)@.drop_first(),
    {
        proof {
            use_type_invariant(&*self);
        }
        if self.pos < self.items.len() {
            let x = self.items[self.pos];
            self.pos = self.pos + 1;
            assert(self@ =~= old(self)@.drop_first());
            Some(x)
        } else {
            None
        }
    }

    /// Consumes `n` items, or all that are left if there are fewer.
    pub fn skip_next(&mut self, n: usize)
        ensures
            final(self)@ == old(self)@.skip(if n <= old(self)@.len() { n as int } else { old(self)@.len() as int }),
    {
        proof {
            use_type_invariant(&*self);
        }
        let left = self.items.len() - self.pos;
        let k = if n <= left { n } else { left };
        self.pos = self.pos + k;
        assert(self@ =~= old(self)@.skip(k as int));
    }
}

impl<const N: usize> Lookahead<char, N> {
    /// Whether the next items are exactly `want`; never for a `want` longer
    /// than the window.
    pub fn has_next(&self, want: &[char]) -> (r: bool)
        ensures
            r == (want@.len() <= N && starts_with(self@, want@)),
    {
        proof {
            use_type_invariant(self);
        }
        if want.len() > N || want.len() > self.items.len() - self.pos {
            return false;
        }
        let mut i: usize = 0;
        while i < want.len()
            invariant
                i <= want@.len() <= self@.len(),
                self.pos + want@.len() <= self.items.len(),
                self@ == self.items@.subrange(self.pos as int, self.items@.len() as int),
                forall|j: int| 0 <= j < i ==> want@[j] == self@[j],
            decreases want@.len() - i,
        {
            if want[i] != self.items[self.pos + i] {
                assert(want@[i as int] != self@[i as int]);
                return false;
            }
            i = i + 1;
        }
                true
    }

    /// Consumes `want` if the next items are exactly `want`, and says
    /// whether it did.
    pub fn with_next(&mut self, want: &[char]) -> (r: bool)
        ensures
            r == (want@.len() <= N && starts_with(old(self)@, want@)),
            r ==> final(self)@ == old(self)@.skip(want@.len() as int),
            !r ==> final(self)@ == old(self)@,
    {
        if self.has_next(want) {
            self.skip_next(want.len());
            return true;
        }
        false
    }
}

} // verus!
