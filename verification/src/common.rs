//! What the writers share.

use vstd::prelude::*;

verus! {

/// The number of spaces of one step of indentation.
pub const INDENT_WIDTH: usize = 2;

/// A run of `n` spaces.
pub open spec fn spaces(n: nat) -> Seq<char> {
    Seq::new(n, |i: int| ' ')
}

/// The indentation at the depth `depth`.
pub open spec fn indentation(depth: nat) -> Seq<char> {
    spaces(2 * depth)
}

/// A depth of indentation.
#[derive(Clone, Copy, Debug)]
pub struct Indenter {
    depth: usize,
}

impl View for Indenter {
    type V = nat;

    /// The depth.
    closed spec fn view(&self) -> nat {
        self.depth as nat
    }
}

impl Default for Indenter {
    /// No indentation.
    fn default() -> (r: Indenter)
        ensures
            r@ == 0,
    {
        Indenter { depth: 0 }
    }
}

impl Indenter {
    /// The depth.
    pub fn depth(&self) -> (r: usize)
        ensures
            r == self@,
    {
        self.depth
    }

    /// One step deeper.
    pub fn indent(&self) -> (r: Indenter)
        requires
            self@ < usize::MAX,
        ensures
            r@ == self@ + 1,
    {
        Indenter { depth: self.depth + 1 }
    }

    /// One step back, where there is one.
    pub fn outdent(&self) -> (r: Indenter)
        ensures
            r@ == if self@ > 0 {
                (self@ - 1) as nat
            } else {
                0
            },
    {
        if self.depth > 0 {
            Indenter { depth: self.depth - 1 }
        } else {
            Indenter { depth: 0 }
        }
    }

    /// The spaces of one step.
    pub fn one(&self) -> (r: String)
        ensures
            r@ == spaces(2),
    {
        let mut out = String::new();
        out.push(' ');
        out.push(' ');
        assert(out@ =~= spaces(2));
        out
    }

    /// Appends the indentation to `out`.
    pub fn write(&self, out: &mut String)
        ensures
            final(out)@ == old(out)@ + indentation(self@),
    {
        let mut i: usize = 0;
        assert(old(out)@ + spaces(0) =~= old(out)@);
        while i < self.depth
            invariant
                i <= self.depth,
                out@ == old(out)@ + spaces(2 * i as nat),
            decreases self.depth - i,
        {
            out.push(' ');
            out.push(' ');
            assert(out@ =~= old(out)@ + spaces(2 * (i + 1) as nat));
            i = i + 1;
        }
    }

    /// The indentation.
    pub fn to_string(&self) -> (r: String)
        ensures
            r@ == indentation(self@),
    {
        let mut out = String::new();
        self.write(&mut out);
        assert(Seq::<char>::empty() + indentation(self@) =~= indentation(self@));
        out
    }
}

} // verus!
