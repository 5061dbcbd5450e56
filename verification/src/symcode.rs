//! The dynamic keysym allocator.
//!
//! The layout can only type the keysyms it already maps.  To type
//! anything else, a small pool of spare keycodes is kept whose mapping is
//! rewritten on demand.  The functions here decide which keycode serves a
//! requested keysym and which rebindings the front end must apply to the
//! server; on shutdown every rewritten keycode is handed back for
//! cleanup, so no spare mapping outlives the process.

use vstd::prelude::*;

use crate::table::{Table, assoc_get};
use crate::uni::SpecUni;

verus! {

/// How a keysym is reachable after a lookup.
#[derive(Debug, Clone, Copy, PartialEq, Eq, Structural)]
pub enum SymGroup {
    /// Already on the layout, unshifted, or already loaded on a spare key.
    Old,
    /// On the layout but in the shifted position.
    Shift,
    /// Freshly loaded onto a spare keycode; the display must settle
    /// before the key is pressed.
    New,
}

impl SymGroup {
    pub fn is_new(&self) -> (r: bool)
        ensures
            r == (self is New),
    {
        matches!(self, SymGroup::New)
    }

    pub fn is_shift(&self) -> (r: bool)
        ensures
            r == (self is Shift),
    {
        matches!(self, SymGroup::Shift)
    }
}

/// The allocator: the layout's own keysyms, the ring of spare keycodes
/// with the keysym each currently carries (zero for none), and the
/// keycode of the leftmost shift key.
pub struct SymCode {
    pub def_syms: Table<(u8, bool)>,
    pub mut_syms: Vec<(u32, u8)>,
    pub shift: u8,
    pub uu: SpecUni,
}

/// The spare ring rotated left by one.
pub open spec fn rotated(s: Seq<(u32, u8)>) -> Seq<(u32, u8)> {
    s.skip(1) + seq![s[0]]
}

/// What one lookup of keysym `s` returns: the layout is consulted first,
/// then the front spare slot; otherwise the rotated ring's new front
/// serves, freshly rewritten.
pub open spec fn find_res(pre: SymCode, s: u32) -> (u8, SymGroup) {
    match assoc_get(pre.def_syms.pairs@, s) {
        Some(cs) => (
            cs.0,
            if cs.1 {
                SymGroup::Shift
            } else {
                SymGroup::Old
            },
        ),
        None => {
            if pre.mut_syms@.len() == 0 {
                (0, SymGroup::Old)
            } else if pre.mut_syms@[0].0 == s {
                (pre.mut_syms@[0].1, SymGroup::Old)
            } else {
                (rotated(pre.mut_syms@)[0].1, SymGroup::New)
            }
        },
    }
}

/// The spare ring after one lookup of `s`: unchanged unless the ring had
/// to serve, in which case it rotates and its new front carries `s`.
pub open spec fn find_mut(pre: SymCode, s: u32) -> Seq<(u32, u8)> {
    if assoc_get(pre.def_syms.pairs@, s) is Some || pre.mut_syms@.len() == 0
        || pre.mut_syms@[0].0 == s {
        pre.mut_syms@
    } else {
        let rot = rotated(pre.mut_syms@);
        rot.update(0, (s, rot[0].1))
    }
}

/// Exactly how one lookup steps the allocator.
pub open spec fn find_post(pre: SymCode, post: SymCode, s: u32, r: (u8, SymGroup)) -> bool {
    &&& post.shift == pre.shift
    &&& post.def_syms.pairs@ == pre.def_syms.pairs@
    &&& post.uu.ranges@ == pre.uu.ranges@
    &&& pre.mut_syms@.len() >= 1
    &&& r == find_res(pre, s)
    &&& post.mut_syms@ == find_mut(pre, s)
}

/// The keysym a character is typed with: Latin-1 code points name
/// themselves, everything else uses the Unicode-form keysym.
pub open spec fn keysym_of_char(c: char) -> u32 {
    let u = c as u32;
    if u <= 0x7F || (0xA0 <= u <= 0xFF) {
        u
    } else {
        (u + 0x1000000) as u32
    }
}

/// The (code, sym) pairs of the slots that carry a keysym, in ring order.
pub open spec fn live_slots(s: Seq<(u32, u8)>) -> Seq<(u8, u32)>
    decreases s.len(),
{
    if s.len() == 0 {
        Seq::empty()
    } else {
        (if s[0].0 != 0 {
            seq![(s[0].1, s[0].0)]
        } else {
            Seq::empty()
        }) + live_slots(s.drop_first())
    }
}

impl SymCode {
    pub open spec fn wf(self) -> bool {
        &&& 1 <= self.mut_syms@.len() <= 5
        &&& self.def_syms.wf()
        &&& self.uu.wf()
    }

    /// Builds the allocator from the layout table, the pool of unbound
    /// keycodes (of which at most five are kept), a fallback keycode for
    /// layouts with no unbound one, and the shift keycode.
    pub fn new(def_syms: Table<(u8, bool)>, unassigned: &Vec<u8>, fallback: u8, shift: u8) -> (r:
        SymCode)
        requires
            def_syms.wf(),
        ensures
            r.wf(),
            r.def_syms == def_syms,
            r.shift == shift,
            r.uu.wf(),
            unassigned@.len() == 0 ==> r.mut_syms@ =~= seq![(0u32, fallback)],
            unassigned@.len() > 0 ==> {
                let n = if unassigned@.len() < 5 {
                    unassigned@.len() as int
                } else {
                    5
                };
                r.mut_syms@.len() == n && forall|i: int|
                    0 <= i < n ==> r.mut_syms@[i] == (0u32, unassigned@[i])
            },
    {
        let mut v: Vec<(u32, u8)> = Vec::new();
        let n = if unassigned.len() < 5 {
            unassigned.len()
        } else {
            5
        };
        let mut i: usize = 0;
        while i < n
            invariant
                i <= n,
                n <= unassigned@.len(),
                v@.len() == i,
                forall|j: int| 0 <= j < i ==> v@[j] == (0u32, unassigned@[j]),
            decreases n - i,
        {
            v.push((0, unassigned[i]));
            i += 1;
        }
        if v.len() == 0 {
            v.push((0, fallback));
            assert(v@ =~= seq![(0u32, fallback)]);
        }
        SymCode { def_syms, mut_syms: v, shift, uu: SpecUni::new() }
    }

    /// The keycode of the leftmost shift key.
    pub fn shift_key(&self) -> (r: u8)
        ensures
            r == self.shift,
    {
        self.shift
    }

    /// Looks up the keycode that serves keysym `s`, rewriting a spare
    /// slot when the layout cannot type it.  On `New` the front end must
    /// rebind the returned keycode to `s` and synchronize before use.
    pub fn find_sym(&mut self, s: u32) -> (r: (u8, SymGroup))
        requires
            old(self).wf(),
        ensures
            final(self).wf(),
            find_post(*old(self), *final(self), s, r),
    {
        match self.def_syms.get(s) {
            Some((c, sh)) => {
                if sh {
                    (c, SymGroup::Shift)
                } else {
                    (c, SymGroup::Old)
                }
            },
            None => {
                let (front_sym, front_code) = self.mut_syms[0];
                if front_sym == s {
                    (front_code, SymGroup::Old)
                } else {
                    let ghost pre = self.mut_syms@;
                    let front = self.mut_syms.remove(0);
                    self.mut_syms.push(front);
                    proof {
                        assert(self.mut_syms@ =~= rotated(pre));
                    }
                    let code = self.mut_syms[0].1;
                    let ghost rot = self.mut_syms@;
                    self.mut_syms.set(0, (s, code));
                    proof {
                        assert(self.mut_syms@ =~= rot.update(0, (s, rot[0].1)));
                    }
                    (code, SymGroup::New)
                }
            },
        }
    }

    /// Looks up the keycode for typing one character.
    pub fn find_sym_str(&mut self, c: char) -> (r: (u8, SymGroup))
        requires
            old(self).wf(),
        ensures
            final(self).wf(),
            find_post(*old(self), *final(self), keysym_of_char(c), r),
    {
        let chan = c as u32;
        if chan <= 0x7F || (0xA0 <= chan && chan <= 0xFF) {
            return self.find_sym(chan);
        }
        if chan < 0xFFFF {
            // A legacy keysym may exist for this code point; the
            // Unicode-form keysym is requested regardless.
            let _legacy = self.uu.contains(#[verifier::truncate] (chan as u16));
        }
        self.find_sym(chan + 0x1000000)
    }

    /// The rebindings to reassert after a keyboard appears or vanishes:
    /// the server may have reset the spare keycodes' mappings.
    pub fn affirm(&self) -> (r: Vec<(u8, u32)>)
        ensures
            r@ == live_slots(self.mut_syms@),
    {
        let n = self.mut_syms.len();
        let mut r: Vec<(u8, u32)> = Vec::new();
        let mut i: usize = 0;
        proof {
            assert(self.mut_syms@.skip(0) =~= self.mut_syms@);
        }
        while i < n
            invariant
                i <= n,
                n == self.mut_syms@.len(),
                live_slots(self.mut_syms@) =~= r@ + live_slots(self.mut_syms@.skip(i as int)),
            decreases n - i,
        {
            let (sym, code) = self.mut_syms[i];
            proof {
                assert(self.mut_syms@.skip(i as int)[0] == self.mut_syms@[i as int]);
                assert(self.mut_syms@.skip(i as int).drop_first() =~= self.mut_syms@.skip(i + 1));
            }
            if sym != 0 {
                r.push((code, sym));
            }
            i += 1;
        }
        proof {
            assert(live_slots(self.mut_syms@.skip(n as int)) =~= Seq::<(u8, u32)>::empty());
            assert(r@ + Seq::<(u8, u32)>::empty() =~= r@);
        }
        r
    }

    /// Forgets every loaded keysym and returns the keycodes that carried
    /// one: the front end rebinds each back to "no symbol".  Afterwards
    /// no spare slot holds a keysym.
    pub fn cleanup(&mut self) -> (r: Vec<u8>)
        requires
            old(self).wf(),
        ensures
            final(self).wf(),
            final(self).def_syms.pairs@ == old(self).def_syms.pairs@,
            final(self).shift == old(self).shift,
            final(self).mut_syms@.len() == old(self).mut_syms@.len(),
            forall|i: int|
                0 <= i < final(self).mut_syms@.len() ==> final(self).mut_syms@[i] == (
                0u32,
                old(self).mut_syms@[i].1,
            ),
            r@.len() == live_slots(old(self).mut_syms@).len(),
            forall|k: int|
                0 <= k < r@.len() ==> r@[k] == live_slots(old(self).mut_syms@)[k].0,
    {
        let live = self.affirm();
        let mut r: Vec<u8> = Vec::new();
        let mut k: usize = 0;
        while k < live.len()
            invariant
                k <= live@.len(),
                live@ == live_slots(old(self).mut_syms@),
                r@.len() == k,
                forall|j: int| 0 <= j < k ==> r@[j] == live@[j].0,
                self == old(self),
            decreases live@.len() - k,
        {
            r.push(live[k].0);
            k += 1;
        }
        let n = self.mut_syms.len();
        let mut i: usize = 0;
        while i < n
            invariant
                i <= n,
                n == old(self).mut_syms@.len(),
                self.def_syms == old(self).def_syms,
                self.shift == old(self).shift,
                self.uu == old(self).uu,
                self.mut_syms@.len() == n,
                forall|j: int| 0 <= j < i ==> self.mut_syms@[j] == (0u32, old(self).mut_syms@[j].1),
                forall|j: int| i <= j < n ==> self.mut_syms@[j] == old(self).mut_syms@[j],
            decreases n - i,
        {
            let code = self.mut_syms[i].1;
            self.mut_syms.set(i, (0, code));
            i += 1;
        }
        r
    }
}

/// Looking the same keysym up twice in a row yields the same keycode,
/// and the second lookup neither rewrites a slot nor reports `New`.
pub proof fn lemma_lookup_cached(
    pre: SymCode,
    mid: SymCode,
    post: SymCode,
    s: u32,
    r1: (u8, SymGroup),
    r2: (u8, SymGroup),
)
    requires
        pre.wf(),
        find_post(pre, mid, s, r1),
        find_post(mid, post, s, r2),
    ensures
        r2.0 == r1.0,
        !(r2.1 is New),
        post.mut_syms@ == mid.mut_syms@,
{
}

} // verus!
