//! Small sequence container for keycode runs.
//!
//! A configured sequence holds between 2 and 16 keycodes.  The container
//! stores the four even sizes up to eight inline and falls back to a heap
//! vector for anything longer, while exposing the same contents as a plain
//! slice.  Runs of odd length below nine do not fit any shape and are
//! rejected, which is exactly the set of canonical lengths the matcher
//! accepts.

use vstd::prelude::*;

verus! {

/// Sequence container with four inline shapes and one heap shape.
#[derive(Debug, Clone, Hash, PartialEq, Eq)]
pub enum SmoVec<T> {
    Vec2([T; 2]),
    Vec4([T; 4]),
    Vec6([T; 6]),
    Vec8([T; 8]),
    VecM(Vec<T>),
}

impl<T> View for SmoVec<T> {
    type V = Seq<T>;

    open spec fn view(&self) -> Seq<T> {
        match self {
            SmoVec::Vec2(a) => a@,
            SmoVec::Vec4(a) => a@,
            SmoVec::Vec6(a) => a@,
            SmoVec::Vec8(a) => a@,
            SmoVec::VecM(v) => v@,
        }
    }
}

/// The lengths that fit one of the container's shapes.
pub open spec fn admissible_len(n: int) -> bool {
    n == 2 || n == 4 || n == 6 || n == 8 || n > 8
}

impl<T: Copy> SmoVec<T> {
    /// Packs a slice into the container; `None` when the length fits no shape.
    pub fn new(s: &[T]) -> (r: Option<Self>)
        ensures
            r is Some <==> admissible_len(s@.len() as int),
            r is Some ==> r->0@ == s@,
    {
        Self::from_iter(s)
    }

    /// Packs the elements into the smallest shape that holds them all.
    pub fn from_iter(s: &[T]) -> (r: Option<Self>)
        ensures
            r is Some <==> admissible_len(s@.len() as int),
            r is Some ==> r->0@ == s@,
    {
        let n = s.len();
        if n == 2 {
            let a = [s[0], s[1]];
            assert(a@ =~= s@);
            Some(SmoVec::Vec2(a))
        } else if n == 4 {
            let a = [s[0], s[1], s[2], s[3]];
            assert(a@ =~= s@);
            Some(SmoVec::Vec4(a))
        } else if n == 6 {
            let a = [s[0], s[1], s[2], s[3], s[4], s[5]];
            assert(a@ =~= s@);
            Some(SmoVec::Vec6(a))
        } else if n == 8 {
            let a = [s[0], s[1], s[2], s[3], s[4], s[5], s[6], s[7]];
            assert(a@ =~= s@);
            Some(SmoVec::Vec8(a))
        } else if n > 8 {
            let mut v: Vec<T> = Vec::new();
            let mut i: usize = 0;
            while i < n
                invariant
                    i <= n,
                    n == s@.len(),
                    v@ =~= s@.subrange(0, i as int),
                decreases n - i,
            {
                v.push(s[i]);
                i += 1;
            }
            assert(v@ =~= s@);
            Some(SmoVec::VecM(v))
        } else {
            None
        }
    }

    /// The contents as a plain slice, whatever the shape.
    pub fn slice(&self) -> (r: &[T])
        ensures
            r@ == self@,
    {
        match self {
            SmoVec::Vec2(a) => a.as_slice(),
            SmoVec::Vec4(a) => a.as_slice(),
            SmoVec::Vec6(a) => a.as_slice(),
            SmoVec::Vec8(a) => a.as_slice(),
            SmoVec::VecM(v) => v.as_slice(),
        }
    }
}

/// Element-wise comparison of two keycode slices.
pub fn codes_eq(a: &[u8], b: &[u8]) -> (r: bool)
    ensures
        r <==> a@ == b@,
{
    if a.len() != b.len() {
        assert(a@.len() != b@.len());
        return false;
    }
    let n = a.len();
    let mut i: usize = 0;
    while i < n
        invariant
            i <= n,
            n == a@.len() == b@.len(),
            forall|k: int| 0 <= k < i ==> a@[k] == b@[k],
        decreases n - i,
    {
        if a[i] != b[i] {
            assert(a@[i as int] != b@[i as int]);
            return false;
        }
        i += 1;
    }
    assert(a@ =~= b@);
    true
}

} // verus!
