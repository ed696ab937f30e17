//! A progress bar carried along an iterator: unbounded it shows one star per
//! item taken, bounded it also pads to the length and frames the bar.
use vstd::prelude::*;

verus! {

/// A bar of known length, drawn between two delimiters.
#[derive(Clone, Copy, Debug)]
pub struct Bounded {
    pub bound: usize,
    pub delims: (char, char),
}

/// A bar of unknown length.
#[derive(Clone, Copy, Debug, PartialEq, Eq, Structural)]
pub struct Unbounded;

/// An iterator with the number of items taken so far and the kind of bar.
pub struct Progress<Iter, Bound> {
    pub iter: Iter,
    pub state: usize,
    pub bound: Bound,
}

/// `n` copies of `c`.
pub open spec fn repeated(c: char, n: nat) -> Seq<char> {
    Seq::new(n, |i: int| c)
}

/// Appends `n` copies of the one-character string `s` to `r`.
fn append_repeated(r: &mut String, s: &str, n: usize)
    requires
        s@.len() == 1,
    ensures
        final(r)@ == old(r)@ + repeated(s@[0], n as nat),
{
    let mut i: usize = 0;
    while i < n
        invariant
            s@.len() == 1,
            i <= n,
            r@ == old(r)@ + repeated(s@[0], i as nat),
        decreases n - i,
    {
        r.append(s);
        i += 1;
        assert(r@ =~= old(r)@ + repeated(s@[0], i as nat));
    }
}

/// A one-character string.
fn char_text(c: char) -> (r: String)
    ensures
        r@ == seq![c],
{
    let mut r = String::new();
    push_char(&mut r, c);
    r
}

/// Relies on `String::push`, which appends one character.
#[verifier::external_body]
fn push_char(s: &mut String, c: char)
    ensures
        final(s)@ == old(s)@.push(c),
{
    s.push(c);
}

impl Bounded {
    /// The bar after `state` of `bound` items: the opening delimiter, a star
    /// per item taken, a space per item left, the closing delimiter.
    pub fn display(&self, state: usize) -> (r: String)
        requires
            state <= self.bound,
        ensures
            r@ == seq![self.delims.0] + repeated('*', state as nat) + repeated(
                ' ',
                (self.bound - state) as nat,
            ) + seq![self.delims.1],
    {
        let mut r = char_text(self.delims.0);
        proof {
            reveal_strlit("*");
            reveal_strlit(" ");
        }
        append_repeated(&mut r, "*", state);
        append_repeated(&mut r, " ", self.bound - state);
        let close = char_text(self.delims.1);
        r.append(close.as_str());
        r
    }
}

impl Unbounded {
    /// The bar after `state` items: a star per item taken.
    pub fn display(&self, state: usize) -> (r: String)
        ensures
            r@ == repeated('*', state as nat),
    {
        let mut r = String::new();
        proof {
            reveal_strlit("*");
        }
        append_repeated(&mut r, "*", state);
        r
    }
}

/// A progress bar over `iter`, with no items taken yet.
pub fn progress<Iter>(iter: Iter) -> (r: Progress<Iter, Unbounded>)
    ensures
        r.iter == iter,
        r.state == 0,
{
    Progress::new(iter)
}

impl<Iter> Progress<Iter, Unbounded> {
    /// An unbounded bar over `iter`, with no items taken yet.
    pub fn new(iter: Iter) -> (r: Self)
        ensures
            r.iter == iter,
            r.state == 0,
    {
        Progress { iter, state: 0, bound: Unbounded }
    }

    /// The same bar, bounded by `len`, the number of items the iterator
    /// holds, and framed by brackets.
    pub fn with_bound(self, len: usize) -> (r: Progress<Iter, Bounded>)
        ensures
            r.iter == self.iter,
            r.state == self.state,
            r.bound == (Bounded { bound: len, delims: ('[', ']') }),
    {
        let bound = Bounded { bound: len, delims: ('[', ']') };
        Progress { state: self.state, iter: self.iter, bound }
    }
}

impl<Iter> Progress<Iter, Bounded> {
    /// The same bar framed by `delims`.
    pub fn with_delims(self, delims: (char, char)) -> (r: Self)
        ensures
            r.iter == self.iter,
            r.state == self.state,
            r.bound == (Bounded { bound: self.bound.bound, delims }),
    {
        let mut s = self;
        s.bound.delims = delims;
        s
    }
}

impl<Iter: Iterator> Progress<Iter, Unbounded> {
    /// The bar as it stands, then the next item; the count of items taken
    /// goes up by one.
    pub fn next(&mut self) -> (r: (String, Option<Iter::Item>))
        requires
            old(self).state < usize::MAX,
        ensures
            r.0@ == repeated('*', old(self).state as nat),
            final(self).state == old(self).state + 1,
            final(self).bound == old(self).bound,
    {
        let bar = self.bound.display(self.state);
        self.state += 1;
        let item = self.iter.next();
        (bar, item)
    }
}

impl<Iter: Iterator> Progress<Iter, Bounded> {
    /// The bar as it stands, then the next item; the count of items taken
    /// goes up by one.
    pub fn next(&mut self) -> (r: (String, Option<Iter::Item>))
        requires
            old(self).state <= old(self).bound.bound,
            old(self).state < usize::MAX,
        ensures
            r.0@ == seq![old(self).bound.delims.0] + repeated('*', old(self).state as nat) + repeated(
                ' ',
                (old(self).bound.bound - old(self).state) as nat,
            ) + seq![old(self).bound.delims.1],
            final(self).state == old(self).state + 1,
            final(self).bound == old(self).bound,
    {
        let bar = self.bound.display(self.state);
        self.state += 1;
        let item = self.iter.next();
        (bar, item)
    }
}

} // verus!
