//! Small general-purpose helpers shared by the code model.

use vstd::prelude::*;
use vstd::string::StrSliceExecFns;

verus! {

/// A value of one of two kinds, used where a field may take two shapes
/// (for example an import list that is either a star or a list of names).
#[derive(Debug, PartialEq)]
pub enum Either<L, R> {
    Left(L),
    Right(R),
}

impl<L, R> Either<L, R> {
    /// True exactly on `Left` values.
    pub fn is_left(&self) -> (r: bool)
        ensures
            r == self is Left,
    {
        match self {
            Either::Left(_) => true,
            _ => false,
        }
    }

    /// True exactly on `Right` values.
    pub fn is_right(&self) -> (r: bool)
        ensures
            r == self is Right,
    {
        match self {
            Either::Right(_) => true,
            _ => false,
        }
    }
}

/// The text of `s` with `by` inserted after every newline.
pub open spec fn spec_indent_body(s: Seq<char>, by: Seq<char>) -> Seq<char>
    decreases s.len(),
{
    if s.len() == 0 {
        Seq::empty()
    } else if s.last() == '\n' {
        spec_indent_body(s.drop_last(), by) + seq!['\n'] + by
    } else {
        spec_indent_body(s.drop_last(), by).push(s.last())
    }
}

/// The text of `s` with every line prefixed by `by`.
pub open spec fn spec_indent(s: Seq<char>, by: Seq<char>) -> Seq<char> {
    by + spec_indent_body(s, by)
}

/// Prefixes every line of `s` with `by`, as splitting on newlines and
/// rejoining would.
pub fn indent(s: &str, by: &str) -> (r: String)
    ensures
        r@ == spec_indent(s@, by@),
{
    let n = s.unicode_len();
    let mut out = String::new();
    out.append(by);
    let mut i: usize = 0;
    proof {
        assert(spec_indent_body(s@.take(0), by@) =~= Seq::<char>::empty());
        assert(out@ =~= by@ + spec_indent_body(s@.take(0), by@));
    }
    while i < n
        invariant
            n == s@.len(),
            i <= n,
            out@ == by@ + spec_indent_body(s@.take(i as int), by@),
        decreases n - i,
    {
        let c = s.get_char(i);
        crate::text::push_char(&mut out, c);
        if c == '\n' {
            out.append(by);
        }
        proof {
            assert(s@.take(i as int + 1).drop_last() =~= s@.take(i as int));
            assert(s@.take(i as int + 1).last() == s@[i as int]);
            if s@[i as int] == '\n' {
                assert(out@ =~= by@ + (spec_indent_body(s@.take(i as int), by@) + seq!['\n']
                    + by@));
            } else {
                assert(out@ =~= by@ + spec_indent_body(s@.take(i as int), by@).push(s@[i as int]));
            }
        }
        i += 1;
    }
    proof {
        assert(s@.take(n as int) =~= s@);
    }
    out
}

} // verus!
