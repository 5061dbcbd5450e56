//! The sequence matcher: a buffering state machine over device key events.
//!
//! A run lasts while at least one watched key is held.  During a run the
//! matcher buffers events, escalates to an exclusive device grab when the
//! first press arrived through a per-key grab, and on the run's end
//! decides: a configured binding was matched, the run was modifier-only,
//! or the buffered events must be replayed so the user sees them.
//!
//! The functions here only decide; the front end performs the grabs and
//! the injection they call for.

use vstd::prelude::*;

use crate::conf::{Action, Mapping, map_acts};
use crate::smovec::SmoVec;

verus! {

/// View equality of two resolved actions.
pub open spec fn act_eq_view(a: Action<u32>, b: Action<u32>) -> bool {
    match a {
        Action::Text(t) => b matches Action::Text(t2) && t2@ == t@,
        Action::KeyStroke(k) => b matches Action::KeyStroke(k2) && k2@ == k@,
        Action::MouseClick(x) => b matches Action::MouseClick(y) && y == x,
        Action::Repeat(x) => b matches Action::Repeat(y) && y == x,
        Action::Exec(w) => b matches Action::Exec(w2) && crate::conf::words_view(w2@)
            == crate::conf::words_view(w@),
    }
}

/// A copy of a vector of keysyms.
pub fn copy_u32s(t: &Vec<u32>) -> (r: Vec<u32>)
    ensures
        r@ == t@,
{
    let mut r: Vec<u32> = Vec::new();
    let mut i: usize = 0;
    while i < t.len()
        invariant
            i <= t@.len(),
            r@ =~= t@.take(i as int),
        decreases t@.len() - i,
    {
        r.push(t[i]);
        i += 1;
    }
    assert(r@ =~= t@);
    r
}

/// A copy of one resolved action, equal in view.
pub fn dup_action(a: &Action<u32>) -> (r: Action<u32>)
    ensures
        act_eq_view(*a, r),
{
    match a {
        Action::Text(t) => Action::Text(crate::names::copy_chars(t)),
        Action::KeyStroke(k) => Action::KeyStroke(copy_u32s(k)),
        Action::MouseClick(x) => Action::MouseClick(*x),
        Action::Repeat(x) => Action::Repeat(*x),
        Action::Exec(w) => Action::Exec(crate::conf::copy_words(w)),
    }
}

/// A copy of an action list, element-wise equal in view.
pub fn dup_actions(a: &Vec<Action<u32>>) -> (r: Vec<Action<u32>>)
    ensures
        r@.len() == a@.len(),
        forall|k: int| 0 <= k < a@.len() ==> act_eq_view(#[trigger] a@[k], r@[k]),
{
    let mut r: Vec<Action<u32>> = Vec::new();
    let mut i: usize = 0;
    while i < a.len()
        invariant
            i <= a@.len(),
            r@.len() == i,
            forall|k: int| 0 <= k < i ==> act_eq_view(#[trigger] a@[k], r@[k]),
        decreases a@.len() - i,
    {
        r.push(dup_action(&a[i]));
        i += 1;
    }
    r
}

/// A copy of the buffered (keycode, pressed) events.
pub fn copy_pairs(t: &Vec<(u8, bool)>) -> (r: Vec<(u8, bool)>)
    ensures
        r@ == t@,
{
    let mut r: Vec<(u8, bool)> = Vec::new();
    let mut i: usize = 0;
    while i < t.len()
        invariant
            i <= t@.len(),
            r@ =~= t@.take(i as int),
        decreases t@.len() - i,
    {
        r.push(t[i]);
        i += 1;
    }
    assert(r@ =~= t@);
    r
}

/// Whether a keycode vector, used as a set, holds `c`.
fn set_contains(v: &Vec<u8>, c: u8) -> (r: bool)
    ensures
        r == v@.contains(c),
{
    let n = v.len();
    let mut i: usize = 0;
    while i < n
        invariant
            i <= n,
            n == v@.len(),
            forall|j: int| 0 <= j < i ==> v@[j] != c,
        decreases n - i,
    {
        if v[i] == c {
            assert(v@.contains(c));
            return true;
        }
        i += 1;
    }
    false
}

/// Keycode sets are vectors without duplicates.
pub open spec fn nodup(v: Seq<u8>) -> bool {
    forall|i: int, j: int| 0 <= i < j < v.len() ==> v[i] != v[j]
}

/// Inserts a keycode into a set.
fn set_insert(v: &mut Vec<u8>, c: u8)
    requires
        nodup(old(v)@),
    ensures
        nodup(final(v)@),
        forall|x: u8| final(v)@.contains(x) <==> (old(v)@.contains(x) || x == c),
{
    if !set_contains(v, c) {
        let ghost v0 = v@;
        v.push(c);
        proof {
            assert forall|x: u8| v@.contains(x) <==> (v0.contains(x) || x == c) by {
                crate::layout::lemma_push_contains(v0, c, x);
            }
            assert forall|i: int, j: int| 0 <= i < j < v@.len() implies v@[i] != v@[j] by {
                if j == v@.len() - 1 {
                    assert(v0.contains(v0[i]));
                }
            }
        }
    } else {
        proof {
            assert forall|x: u8| v@.contains(x) <==> (old(v)@.contains(x) || x == c) by {}
        }
    }
}

/// Removes a keycode from a set; reports whether it was there.
fn set_remove(v: &mut Vec<u8>, c: u8) -> (r: bool)
    requires
        nodup(old(v)@),
    ensures
        nodup(final(v)@),
        r == old(v)@.contains(c),
        forall|x: u8| final(v)@.contains(x) <==> (old(v)@.contains(x) && x != c),
{
    let n = v.len();
    let mut i: usize = 0;
    while i < n
        invariant
            i <= n,
            n == v@.len(),
            v == old(v),
            nodup(v@),
            forall|j: int| 0 <= j < i ==> v@[j] != c,
        decreases n - i,
    {
        if v[i] == c {
            let ghost v0 = v@;
            v.remove(i);
            proof {
                assert(v@ =~= v0.subrange(0, i as int) + v0.subrange(i + 1, v0.len() as int));
                assert forall|x: u8| v@.contains(x) <==> (v0.contains(x) && x != c) by {
                    if v@.contains(x) {
                        let k = choose|k: int| 0 <= k < v@.len() && v@[k] == x;
                        if k < i {
                            assert(v0[k] == x);
                        } else {
                            assert(v0[k + 1] == x);
                        }
                        assert(v0.contains(x));
                        if x == c {
                            let k2 = choose|k2: int| 0 <= k2 < v0.len() && v0[k2] == x;
                            assert(v0[i as int] == c);
                            assert(k2 == i);
                            assert(false);
                        }
                    }
                    if v0.contains(x) && x != c {
                        let k = choose|k: int| 0 <= k < v0.len() && v0[k] == x;
                        if k < i {
                            assert(v@[k] == x);
                        } else {
                            assert(k > i);
                            assert(v@[k - 1] == x);
                        }
                        assert(v@.contains(x));
                    }
                }
                assert(v0.contains(c));
            }
            return true;
        }
        i += 1;
    }
    proof {
        if v@.contains(c) {
            let k = choose|k: int| 0 <= k < v@.len() && v@[k] == c;
            assert(false);
        }
    }
    false
}

/// What the front end must do right after one key event.
pub struct KeyOutcome {
    /// Escalate to an exclusive grab of this device.
    pub grab: Option<i32>,
    /// The grab trigger was a modifier key or a release: worth a warning.
    pub unusual: bool,
    /// Forward this event through the injector (floating pass-through).
    pub pass: Option<(u8, bool)>,
    /// The run ended: release stray server keys, then call `end_run`.
    pub run_ended: bool,
}

/// What a finished run calls for.
pub enum EndDecision {
    /// The run matched a binding: enqueue these actions.
    Dispatch(Vec<Action<u32>>),
    /// No match: replay the buffered events.
    Replay(Vec<(u8, bool)>),
    /// No match, but every key was a modifier: stay silent.
    ModifierOnly,
    /// The canonical sequence length fits no shape: ignored, worth a
    /// warning.
    NoSeq,
    /// The run had already been written off as pass-through.
    Quiet,
}

/// The decision at run end, and the device whose grab must be released.
pub struct EndOutcome {
    pub decision: EndDecision,
    pub ungrab: Option<i32>,
}

/// The matcher's run state.
pub struct Matcher {
    /// Keycodes currently held down across all watched devices.
    pub down: Vec<u8>,
    /// Events collected during the current run, meaningful while `maybe`.
    pub seqbuf: Vec<(u8, bool)>,
    /// Whether the run can still match a configured sequence.
    pub maybe: bool,
    /// The keycodes acting as modifiers under the current layout.
    pub modifiers: Vec<u8>,
    /// The device held under an exclusive grab, at most one at a time.
    pub floating: Option<i32>,
}

/// The keycodes of the buffered events, presses and releases alike.
pub open spec fn seqbuf_codes(s: Seq<(u8, bool)>) -> Seq<u8> {
    Seq::new(s.len(), |i: int| s[i].0)
}

impl Matcher {
    pub open spec fn wf(self) -> bool {
        &&& nodup(self.down@)
        &&& nodup(self.modifiers@)
    }

    /// A fresh matcher between runs.
    pub fn new(modifiers: Vec<u8>) -> (r: Self)
        requires
            nodup(modifiers@),
        ensures
            r.wf(),
            r.down@.len() == 0,
            r.seqbuf@.len() == 0,
            r.maybe,
            r.floating is None,
            r.modifiers@ == modifiers@,
    {
        Matcher { down: Vec::new(), seqbuf: Vec::new(), maybe: true, modifiers, floating: None }
    }

    /// Feeds one key event from device `src` into the run.
    ///
    /// `device_floating` is the front end's answer to whether `src` is a
    /// floating slave, consulted only while no device is grabbed.  The
    /// buffer grows only by the event itself, and only while the run is
    /// live: a press, or a release while keys are down.
    pub fn on_key(&mut self, src: i32, code: u8, press: bool, device_floating: bool) -> (r:
        KeyOutcome)
        requires
            old(self).wf(),
        ensures
            final(self).wf(),
            final(self).modifiers@ == old(self).modifiers@,
            ({
                let grabs = old(self).floating is None && device_floating;
                let newfloat = if grabs {
                    Some(src)
                } else {
                    old(self).floating
                };
                let ismod = old(self).modifiers@.contains(code);
                &&& final(self).floating == newfloat
                &&& r.grab == if grabs {
                    Some(src)
                } else {
                    None::<i32>
                }
                &&& r.unusual == (grabs && (ismod || !press))
                &&& (if !old(self).maybe {
                    &&& final(self).seqbuf@ == old(self).seqbuf@
                    &&& !final(self).maybe
                    &&& r.pass == if newfloat is Some {
                        Some((code, press))
                    } else {
                        None::<(u8, bool)>
                    }
                } else if !ismod && newfloat is None && press {
                    &&& final(self).seqbuf@ == old(self).seqbuf@
                    &&& !final(self).maybe
                    &&& r.pass is None
                } else {
                    &&& final(self).seqbuf@ == old(self).seqbuf@.push((code, press))
                    &&& final(self).maybe
                    &&& r.pass is None
                })
                &&& (forall|x: u8|
                    final(self).down@.contains(x) <==> if press {
                        old(self).down@.contains(x) || x == code
                    } else {
                        old(self).down@.contains(x) && x != code
                    })
                &&& r.run_ended == (final(self).down@.len() == 0)
            }),
            (press || old(self).down@.contains(code)) ==> (final(self).seqbuf@.len() > old(
                self,
            ).seqbuf@.len() ==> (press || old(self).down@.len() > 0)),
    {
        let is_modifier = set_contains(&self.modifiers, code);
        let mut grab: Option<i32> = None;
        let mut unusual = false;
        let mut pass: Option<(u8, bool)> = None;
        if self.floating.is_none() && device_floating {
            self.floating = Some(src);
            grab = Some(src);
            if is_modifier || !press {
                unusual = true;
            }
        }
        if !self.maybe {
            if self.floating.is_some() {
                pass = Some((code, press));
            }
        } else if !is_modifier && self.floating.is_none() && press {
            self.maybe = false;
        } else {
            self.seqbuf.push((code, press));
        }
        if press {
            set_insert(&mut self.down, code);
            proof {
                assert(self.down@.contains(code));
                assert(self.down@.len() > 0);
            }
        } else {
            let _was = set_remove(&mut self.down, code);
        }
        let run_ended = self.down.is_empty();
        proof {
            if self.down@.len() == 0 && press {
                assert(self.down@.contains(code));
                assert(false);
            }
        }
        KeyOutcome { grab, unusual, pass, run_ended }
    }

    /// Ends the run: decides what the buffered events amount to, clears
    /// the buffer, and releases the device grab.  Afterwards the buffer
    /// is empty, the run is again open to matching, and nothing floats.
    pub fn end_run(&mut self, map: &Mapping) -> (r: EndOutcome)
        requires
            old(self).wf(),
        ensures
            final(self).wf(),
            final(self).seqbuf@.len() == 0,
            final(self).maybe,
            final(self).floating is None,
            final(self).down@ == old(self).down@,
            final(self).modifiers@ == old(self).modifiers@,
            r.ungrab == old(self).floating,
            ({
                let codes = seqbuf_codes(old(self).seqbuf@);
                if !old(self).maybe {
                    r.decision is Quiet
                } else if crate::smovec::admissible_len(codes.len() as int) {
                    match map_acts(map.seq_act@, codes) {
                        Some(a) => r.decision matches EndDecision::Dispatch(v) && v@.len()
                            == a.len() && forall|k: int|
                            0 <= k < a.len() ==> act_eq_view(#[trigger] a[k], v@[k]),
                        None => {
                            if forall|k: int|
                                0 <= k < codes.len() ==> old(self).modifiers@.contains(
                                    #[trigger] codes[k],
                                ) {
                                r.decision is ModifierOnly
                            } else {
                                r.decision matches EndDecision::Replay(v) && v@ == old(
                                    self,
                                ).seqbuf@
                            }
                        },
                    }
                } else {
                    r.decision is NoSeq
                }
            }),
    {
        let decision: EndDecision;
        if self.maybe {
            let mut codes: Vec<u8> = Vec::new();
            let mut i: usize = 0;
            while i < self.seqbuf.len()
                invariant
                    i <= self.seqbuf@.len(),
                    codes@ =~= seqbuf_codes(self.seqbuf@).take(i as int),
                decreases self.seqbuf@.len() - i,
            {
                codes.push(self.seqbuf[i].0);
                proof {
                    assert(codes@ =~= seqbuf_codes(self.seqbuf@).take(i + 1));
                }
                i += 1;
            }
            proof {
                assert(codes@ =~= seqbuf_codes(self.seqbuf@));
            }
            match SmoVec::from_iter(codes.as_slice()) {
                Some(s) => {
                    match map.get(&s) {
                        Some(a) => {
                            decision = EndDecision::Dispatch(dup_actions(a));
                        },
                        None => {
                            if self.all_modifiers(&codes) {
                                decision = EndDecision::ModifierOnly;
                            } else {
                                decision = EndDecision::Replay(copy_pairs(&self.seqbuf));
                            }
                        },
                    }
                },
                None => {
                    decision = EndDecision::NoSeq;
                },
            }
        } else {
            decision = EndDecision::Quiet;
        }
        self.seqbuf.clear();
        self.maybe = true;
        let ungrab = self.floating;
        self.floating = None;
        EndOutcome { decision, ungrab }
    }

    /// Whether every keycode of the canonical sequence is a modifier.
    fn all_modifiers(&self, codes: &Vec<u8>) -> (r: bool)
        ensures
            r == forall|k: int|
                0 <= k < codes@.len() ==> self.modifiers@.contains(#[trigger] codes@[k]),
    {
        let n = codes.len();
        let mut i: usize = 0;
        while i < n
            invariant
                i <= n,
                n == codes@.len(),
                forall|k: int| 0 <= k < i ==> self.modifiers@.contains(#[trigger] codes@[k]),
            decreases n - i,
        {
            if !set_contains(&self.modifiers, codes[i]) {
                return false;
            }
            i += 1;
        }
        true
    }
}

} // verus!
