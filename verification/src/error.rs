//! Spanned diagnostics, accumulated during one assembly pass and
//! inspected only at emission time.

use vstd::prelude::*;

verus! {

/// A half-open range of character offsets into the source text the
/// engine was given; every diagnostic points at the offending token.
#[derive(Clone, Copy, PartialEq, Eq, Structural, Debug)]
pub struct Span {
    pub lo: usize,
    pub hi: usize,
}

/// One diagnostic: a span and a message.
pub struct Diag {
    pub span: Span,
    pub msg: Vec<char>,
}

/// Accumulates spanned error messages in the order they were raised.
pub struct ErrorStash {
    pub diags: Vec<Diag>,
}

/// The spec-level shape of one diagnostic: its span and message text.
pub open spec fn diag_view(d: Diag) -> (Span, Seq<char>) {
    (d.span, d.msg@)
}

/// The spec-level shape of a stash: the diagnostics in order.
pub open spec fn stash_view(s: ErrorStash) -> Seq<(Span, Seq<char>)> {
    s.diags@.map(|i: int, d: Diag| diag_view(d))
}

impl ErrorStash {
    /// A stash holding no diagnostics.
    pub fn new() -> (r: ErrorStash)
        ensures
            stash_view(r) == Seq::<(Span, Seq<char>)>::empty(),
    {
        let r = ErrorStash { diags: Vec::new() };
        proof {
            assert(stash_view(r) =~= Seq::<(Span, Seq<char>)>::empty());
        }
        r
    }

    /// Appends one diagnostic to the stash.
    pub fn extend(&mut self, span: Span, msg: Vec<char>)
        ensures
            stash_view(*final(self)) == stash_view(*old(self)).push((span, msg@)),
    {
        let ghost prior = stash_view(*self);
        let ghost m = msg@;
        self.diags.push(Diag { span, msg });
        proof {
            assert(stash_view(*self) =~= prior.push((span, m)));
        }
    }

    /// Whether any diagnostic has been recorded.
    pub fn has_error(&self) -> (r: bool)
        ensures
            r == (stash_view(*self).len() != 0),
    {
        self.diags.len() != 0
    }

    /// The number of recorded diagnostics.
    pub fn len(&self) -> (r: usize)
        ensures
            r == stash_view(*self).len(),
    {
        self.diags.len()
    }

    /// The combined diagnostic text, when any diagnostic was recorded:
    /// the messages, one per line.
    pub fn map(&self) -> (r: Option<Vec<char>>)
        ensures
            match r {
                Some(t) => stash_view(*self).len() > 0 && t@ == crate::emit::render_msgs(
                    stash_view(*self),
                ),
                None => stash_view(*self).len() == 0,
            },
    {
        if self.diags.len() == 0 {
            None
        } else {
            let r = crate::emit::msgs_text(&self.diags);
            proof {
                assert(stash_view(*self) == self.diags@.map(|i: int, d: Diag| diag_view(d)));
            }
            Some(r)
        }
    }
}

} // verus!
