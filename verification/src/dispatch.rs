//! The action dispatcher: a cooperative, time-driven executor.
//!
//! Actions matched by the sequence matcher queue up here, together with
//! raw events to replay after a miss.  Each call to `proc` advances the
//! work by one paced step and says when it wants to run again; the input
//! it would inject is handed back as a list of emissions for the front
//! end to perform, in order.  Time is a millisecond instant supplied by
//! the caller.

use vstd::prelude::*;

use std::collections::VecDeque;

use crate::conf::Action;
use crate::matcher::{act_eq_view, dup_action};
use crate::symcode::{SymCode, find_mut, find_res, keysym_of_char};

verus! {

/// One injection the front end must perform.
#[derive(Debug, PartialEq, Eq)]
pub enum Emit {
    /// Synthesize a key press or release of this keycode.
    Key(u32, bool),
    /// Synthesize a pointer button press or release.
    Btn(u32, bool),
    /// Rewrite this keycode's mapping to this keysym and synchronize.
    Rebind(u8, u32),
    /// Spawn a detached process.
    Spawn(Vec<Vec<char>>),
}

/// An action being carried out, with its progress.
pub enum RunAct {
    Txt { content: Vec<char>, index: usize, pressing: bool, shifted: bool },
    Keys { keys: Vec<u32>, index: usize, pressing: bool },
    MouseClick { btn: u32, pressing: bool },
}

/// A flat view of a running action: kind, text, keysyms, index,
/// pressing, shifted, button.
pub open spec fn rv(a: RunAct) -> (int, Seq<char>, Seq<u32>, int, bool, bool, u32) {
    match a {
        RunAct::Txt { content, index, pressing, shifted } => (
            0,
            content@,
            Seq::empty(),
            index as int,
            pressing,
            shifted,
            0,
        ),
        RunAct::Keys { keys, index, pressing } => (
            1,
            Seq::empty(),
            keys@,
            index as int,
            pressing,
            false,
            0,
        ),
        RunAct::MouseClick { btn, pressing } => (2, Seq::empty(), Seq::empty(), 0, pressing, false, btn),
    }
}

/// Whether the next step of a running action reports it finished.
pub open spec fn act_done(a: RunAct) -> bool {
    match a {
        RunAct::Txt { content, index, .. } => index >= content@.len(),
        RunAct::Keys { keys, index, pressing } => keys@.len() == 0 || (index >= keys@.len()
            && !pressing),
        RunAct::MouseClick { pressing, .. } => !pressing,
    }
}

/// What a finishing step emits: only a mouse click ends with an
/// injection, its button release.
pub open spec fn done_em(a: RunAct) -> Seq<Emit> {
    match a {
        RunAct::MouseClick { btn, .. } => seq![Emit::Btn(btn, false)],
        _ => Seq::empty(),
    }
}

/// The pacing, in milliseconds, of one non-finishing step.
pub open spec fn step_sl(a: RunAct, p: SymCode) -> u64 {
    match a {
        RunAct::Txt { content, index, pressing, shifted } => {
            let g = find_res(p, keysym_of_char(content@[index as int])).1;
            if g is New {
                1
            } else if pressing && g is Shift && !shifted {
                2
            } else if pressing {
                5
            } else if g is Shift && shifted {
                2
            } else {
                12
            }
        },
        RunAct::Keys { keys, index, pressing } => {
            let idx2: int = if index < keys@.len() {
                index as int
            } else {
                0
            };
            let g = find_res(p, keys@[idx2]).1;
            if g is New {
                1
            } else {
                2
            }
        },
        RunAct::MouseClick { .. } => 4,
    }
}

/// The running action's view after one non-finishing step.
pub open spec fn step_rv(a: RunAct, p: SymCode) -> (int, Seq<char>, Seq<u32>, int, bool, bool, u32) {
    match a {
        RunAct::Txt { content, index, pressing, shifted } => {
            let g = find_res(p, keysym_of_char(content@[index as int])).1;
            if g is New {
                (0, content@, Seq::empty(), index as int, pressing, shifted, 0)
            } else if pressing && g is Shift && !shifted {
                (0, content@, Seq::empty(), index as int, pressing, true, 0)
            } else if pressing {
                (0, content@, Seq::empty(), index as int, false, shifted, 0)
            } else if g is Shift && shifted {
                (0, content@, Seq::empty(), index as int, pressing, false, 0)
            } else {
                (0, content@, Seq::empty(), index + 1, true, shifted, 0)
            }
        },
        RunAct::Keys { keys, index, pressing } => {
            let idx2: int = if index < keys@.len() {
                index as int
            } else {
                0
            };
            let prs2 = if index < keys@.len() {
                pressing
            } else {
                false
            };
            let g = find_res(p, keys@[idx2]).1;
            if g is New {
                (1, Seq::empty(), keys@, idx2, prs2, false, 0)
            } else {
                (1, Seq::empty(), keys@, idx2 + 1, prs2, false, 0)
            }
        },
        RunAct::MouseClick { btn, .. } => (2, Seq::empty(), Seq::empty(), 0, false, false, btn),
    }
}

/// The spare-ring view after one non-finishing step.
pub open spec fn step_mut(a: RunAct, p: SymCode) -> Seq<(u32, u8)> {
    match a {
        RunAct::Txt { content, index, .. } => find_mut(p, keysym_of_char(content@[index as int])),
        RunAct::Keys { keys, index, .. } => {
            let idx2: int = if index < keys@.len() {
                index as int
            } else {
                0
            };
            find_mut(p, keys@[idx2])
        },
        RunAct::MouseClick { .. } => p.mut_syms@,
    }
}

/// What one non-finishing step emits.
pub open spec fn step_em(a: RunAct, p: SymCode) -> Seq<Emit> {
    match a {
        RunAct::Txt { content, index, pressing, shifted } => {
            let s = keysym_of_char(content@[index as int]);
            let (kc, g) = find_res(p, s);
            if g is New {
                seq![Emit::Rebind(kc, s)]
            } else if pressing && g is Shift && !shifted {
                seq![Emit::Key(p.shift as u32, true)]
            } else if pressing {
                seq![Emit::Key(kc as u32, true)]
            } else if g is Shift && shifted {
                seq![Emit::Key(p.shift as u32, false)]
            } else {
                seq![Emit::Key(kc as u32, false)]
            }
        },
        RunAct::Keys { keys, index, pressing } => {
            let idx2: int = if index < keys@.len() {
                index as int
            } else {
                0
            };
            let prs2 = if index < keys@.len() {
                pressing
            } else {
                false
            };
            let s = keys@[idx2];
            let (kc, g) = find_res(p, s);
            if g is New {
                seq![Emit::Rebind(kc, s)]
            } else {
                seq![Emit::Key(kc as u32, prs2)]
            }
        },
        RunAct::MouseClick { btn, .. } => seq![Emit::Btn(btn, true)],
    }
}

impl RunAct {
    /// Advances the action one sub-step, returning its new state and the
    /// injections of this step; a `None` pacing means it is finished.
    pub fn proc(self, syc: &mut SymCode) -> (r: (RunAct, Option<u64>, Vec<Emit>))
        requires
            old(syc).wf(),
        ensures
            final(syc).wf(),
            final(syc).shift == old(syc).shift,
            final(syc).def_syms.pairs@ == old(syc).def_syms.pairs@,
            final(syc).uu.ranges@ == old(syc).uu.ranges@,
            r.1 matches Some(d) ==> 1 <= d <= 12,
            act_done(self) ==> r.1 is None && final(syc).mut_syms@ == old(syc).mut_syms@
                && r.2@ == done_em(self),
            !act_done(self) ==> r.1 == Some(step_sl(self, *old(syc))) && rv(r.0) == step_rv(
                self,
                *old(syc),
            ) && final(syc).mut_syms@ == step_mut(self, *old(syc)) && r.2@ == step_em(
                self,
                *old(syc),
            ),
    {
        let mut em: Vec<Emit> = Vec::new();
        match self {
            RunAct::Txt { content, index, mut pressing, mut shifted } => {
                if index >= content.len() {
                    let a = RunAct::Txt { content, index, pressing, shifted };
                    return (a, None, em);
                }
                let ch = content[index];
                let (kc, g) = syc.find_sym_str(ch);
                if g.is_new() {
                    em.push(Emit::Rebind(kc, char_keysym(ch)));
                    let a = RunAct::Txt { content, index, pressing, shifted };
                    return (a, Some(1), em);
                }
                if pressing {
                    if g.is_shift() && !shifted {
                        em.push(Emit::Key(syc.shift_key() as u32, true));
                        shifted = true;
                        let a = RunAct::Txt { content, index, pressing, shifted };
                        return (a, Some(2), em);
                    }
                    em.push(Emit::Key(kc as u32, true));
                    pressing = false;
                    let a = RunAct::Txt { content, index, pressing, shifted };
                    (a, Some(5), em)
                } else {
                    if g.is_shift() && shifted {
                        em.push(Emit::Key(syc.shift_key() as u32, false));
                        shifted = false;
                        let a = RunAct::Txt { content, index, pressing, shifted };
                        return (a, Some(2), em);
                    }
                    em.push(Emit::Key(kc as u32, false));
                    pressing = true;
                    let a = RunAct::Txt { content, index: index + 1, pressing, shifted };
                    (a, Some(12), em)
                }
            },
            RunAct::Keys { keys, mut index, mut pressing } => {
                if index >= keys.len() {
                    if !pressing {
                        let a = RunAct::Keys { keys, index, pressing };
                        return (a, None, em);
                    }
                    pressing = false;
                    index = 0;
                    if keys.len() == 0 {
                        let a = RunAct::Keys { keys, index, pressing };
                        return (a, None, em);
                    }
                }
                let keysym = keys[index];
                let (kc, g) = syc.find_sym(keysym);
                if g.is_new() {
                    em.push(Emit::Rebind(kc, keysym));
                    let a = RunAct::Keys { keys, index, pressing };
                    return (a, Some(1), em);
                }
                em.push(Emit::Key(kc as u32, pressing));
                let a = RunAct::Keys { keys, index: index + 1, pressing };
                (a, Some(2), em)
            },
            RunAct::MouseClick { btn, pressing } => {
                em.push(Emit::Btn(btn, pressing));
                if pressing {
                    let a = RunAct::MouseClick { btn, pressing: false };
                    (a, Some(4), em)
                } else {
                    let a = RunAct::MouseClick { btn, pressing };
                    (a, None, em)
                }
            },
        }
    }
}

/// An action the drain loop disposes of without starting it: a repeat
/// marker, a spawn, or an empty payload.
pub open spec fn instant(a: Action<u32>) -> bool {
    match a {
        Action::Repeat(_) => true,
        Action::Exec(_) => true,
        Action::Text(t) => t@.len() == 0,
        Action::KeyStroke(k) => k@.len() == 0,
        Action::MouseClick(_) => false,
    }
}

/// The first queued action, at or after `i`, that actually runs.
pub open spec fn first_real(q: Seq<Action<u32>>, i: int) -> int
    decreases q.len() - i,
{
    if i < 0 || i >= q.len() {
        q.len() as int
    } else if !instant(q[i]) {
        i
    } else {
        first_real(q, i + 1)
    }
}

/// The processes spawned while disposing of a run of instant actions.
pub open spec fn spawn_ems(q: Seq<Action<u32>>) -> Seq<Emit>
    decreases q.len(),
{
    if q.len() == 0 {
        Seq::empty()
    } else {
        (match q[0] {
            Action::Exec(w) => seq![Emit::Spawn(w)],
            _ => Seq::empty(),
        }) + spawn_ems(q.drop_first())
    }
}

/// The fresh running state of an action about to start.
pub open spec fn init_act(a: Action<u32>) -> RunAct {
    match a {
        Action::Text(t) => RunAct::Txt { content: t, index: 0, pressing: true, shifted: false },
        Action::KeyStroke(k) => RunAct::Keys { keys: k, index: 0, pressing: true },
        Action::MouseClick(c) => RunAct::MouseClick { btn: c as u32, pressing: true },
        _ => RunAct::MouseClick { btn: 0, pressing: true },
    }
}

/// `n` copies of an action list, one after another.
pub open spec fn repeat_seq(s: Seq<Action<u32>>, n: nat) -> Seq<Action<u32>>
    decreases n,
{
    if n == 0 {
        Seq::empty()
    } else {
        repeat_seq(s, (n - 1) as nat) + s
    }
}

/// Element-wise view equality of two action lists.
pub open spec fn acts_like(a: Seq<Action<u32>>, b: Seq<Action<u32>>) -> bool {
    a.len() == b.len() && forall|k: int| 0 <= k < a.len() ==> act_eq_view(b[k], #[trigger] a[k])
}

/// View equality of actions is reflexive.
pub proof fn lemma_act_eq_view_refl(a: Action<u32>)
    ensures
        act_eq_view(a, a),
{
}

/// How one action or a drained instant action classifies.
enum Sing {
    Run(RunAct),
    Em(Emit),
    Skip,
}

/// Converts a popped action into a running state, an immediate emission,
/// or nothing.
fn sing(c: Action<u32>) -> (r: Sing)
    ensures
        match c {
            Action::Repeat(_) => r is Skip,
            Action::Exec(e) => r matches Sing::Em(m) && m == Emit::Spawn(e),
            _ => r matches Sing::Run(a) && a == init_act(c),
        },
{
    match c {
        Action::Text(t) => Sing::Run(RunAct::Txt { content: t, index: 0, pressing: true, shifted: false }),
        Action::KeyStroke(ks) => Sing::Run(RunAct::Keys { keys: ks, index: 0, pressing: true }),
        Action::MouseClick(c) => Sing::Run(RunAct::MouseClick { btn: c as u32, pressing: true }),
        Action::Repeat(_) => Sing::Skip,
        Action::Exec(e) => Sing::Em(Emit::Spawn(e)),
    }
}

/// The dispatcher: queued actions, the raw replay queue, the action in
/// progress, the last enqueued list (for repeats), and the instant
/// before which it must not act again.
pub struct Xdo {
    pub acts: VecDeque<Action<u32>>,
    pub last_add: Vec<Action<u32>>,
    pub replay: VecDeque<(u8, bool)>,
    pub resume: u64,
    pub acting: Option<RunAct>,
    pub sym_code: SymCode,
}

impl Xdo {
    pub open spec fn wf(self) -> bool {
        self.sym_code.wf()
    }

    /// A fresh dispatcher around the keysym allocator.
    pub fn new(sym_code: SymCode) -> (r: Xdo)
        requires
            sym_code.wf(),
        ensures
            r.wf(),
            r.acts@.len() == 0,
            r.last_add@.len() == 0,
            r.replay@.len() == 0,
            r.resume == 0,
            r.acting is None,
            r.sym_code == sym_code,
    {
        Xdo {
            acts: VecDeque::new(),
            last_add: Vec::new(),
            replay: VecDeque::new(),
            resume: 0,
            acting: None,
            sym_code,
        }
    }

    /// The spare-keycode rebindings to reassert after a keyboard was
    /// plugged or unplugged.
    pub fn ondevchange(&self) -> (r: Vec<(u8, u32)>)
        ensures
            r@ == crate::symcode::live_slots(self.sym_code.mut_syms@),
    {
        self.sym_code.affirm()
    }

    /// Enqueues a matched action list.  A leading repeat marker instead
    /// re-enqueues the previously remembered list that many times; any
    /// other list is remembered as the latest.
    pub fn add_acts(&mut self, acts: &Vec<Action<u32>>)
        ensures
            final(self).replay@ == old(self).replay@,
            final(self).resume == old(self).resume,
            final(self).acting == old(self).acting,
            final(self).sym_code == old(self).sym_code,
            acts@.len() == 0 ==> final(self).acts@ == old(self).acts@ && final(self).last_add@
                == old(self).last_add@,
            acts@.len() > 0 ==> (acts@[0] matches Action::Repeat(n) ==> acts_like(
                final(self).acts@,
                old(self).acts@ + repeat_seq(old(self).last_add@, n as nat) + acts@.skip(1),
            ) && final(self).last_add@ == old(self).last_add@),
            (acts@.len() > 0 && !(acts@[0] matches Action::Repeat(_))) ==> (acts_like(
                final(self).acts@,
                old(self).acts@ + acts@,
            ) && acts_like(final(self).last_add@, acts@)),
    {
        if acts.len() == 0 {
            return;
        }
        let is_repeat = matches!(&acts[0], Action::Repeat(_));
        if is_repeat {
            let n: u8 = match &acts[0] {
                Action::Repeat(n) => *n,
                _ => 0,
            };
            let ghost base = self.acts@;
            let mut rep: usize = 0;
            while rep < n as usize
                invariant
                    rep <= n as usize,
                    old(self).last_add@ == self.last_add@,
                    old(self).replay@ == self.replay@,
                    old(self).resume == self.resume,
                    old(self).acting == self.acting,
                    old(self).sym_code == self.sym_code,
                    acts_like(self.acts@, base + repeat_seq(self.last_add@, rep as nat)),
                decreases n as usize - rep,
            {
                let m = self.last_add.len();
                let ghost mid = self.acts@;
                let mut j: usize = 0;
                while j < m
                    invariant
                        j <= m,
                        m == self.last_add@.len(),
                        old(self).last_add@ == self.last_add@,
                        old(self).replay@ == self.replay@,
                        old(self).resume == self.resume,
                        old(self).acting == self.acting,
                        old(self).sym_code == self.sym_code,
                        self.acts@.len() == mid.len() + j,
                        forall|k: int| 0 <= k < mid.len() ==> self.acts@[k] == mid[k],
                        forall|k: int|
                            0 <= k < j ==> act_eq_view(
                                self.last_add@[k],
                                #[trigger] self.acts@[mid.len() + k],
                            ),
                    decreases m - j,
                {
                    let a = dup_action(&self.last_add[j]);
                    self.acts.push_back(a);
                    j += 1;
                }
                proof {
                    let last = self.last_add@;
                    let prev = base + repeat_seq(last, rep as nat);
                    let next = base + repeat_seq(last, (rep + 1) as nat);
                    assert(repeat_seq(last, (rep + 1) as nat) =~= repeat_seq(last, rep as nat)
                        + last);
                    assert(next =~= prev + last);
                    assert forall|k: int|
                        0 <= k < self.acts@.len() implies act_eq_view(
                        next[k],
                        #[trigger] self.acts@[k],
                    ) by {
                        if k < mid.len() {
                            assert(self.acts@[k] == mid[k]);
                            assert(act_eq_view(prev[k], mid[k]));
                        } else {
                            assert(act_eq_view(
                                last[k - mid.len()],
                                self.acts@[mid.len() + (k - mid.len())],
                            ));
                            assert(next[k] == last[k - prev.len()]);
                        }
                    }
                    assert(acts_like(self.acts@, next));
                }
                rep += 1;
            }
            let ghost before_tail = self.acts@;
            self.push_tail(acts, 1);
            proof {
                assert(acts@[0] == Action::<u32>::Repeat(n));
                let pre = base + repeat_seq(self.last_add@, n as nat);
                let target = base + repeat_seq(self.last_add@, n as nat) + acts@.skip(1);
                assert(target =~= pre + acts@.skip(1));
                assert forall|k: int|
                    0 <= k < self.acts@.len() implies act_eq_view(
                    target[k],
                    #[trigger] self.acts@[k],
                ) by {
                    if k < before_tail.len() {
                        assert(self.acts@[k] == before_tail[k]);
                        assert(act_eq_view(pre[k], before_tail[k]));
                    } else {
                        assert(act_eq_view(
                            acts@[1 + (k - before_tail.len())],
                            self.acts@[before_tail.len() + (k - before_tail.len())],
                        ));
                        assert(target[k] == acts@.skip(1)[k - before_tail.len()]);
                    }
                }
                assert(acts_like(self.acts@, target));
            }
        } else {
            let first = dup_action(&acts[0]);
            self.acts.push_back(first);
            let la = crate::matcher::dup_actions(acts);
            self.last_add = la;
            let ghost before_tail = self.acts@;
            self.push_tail(acts, 1);
            proof {
                let target = old(self).acts@ + acts@;
                assert(before_tail == old(self).acts@.push(first));
                assert forall|k: int|
                    0 <= k < self.acts@.len() implies act_eq_view(
                    target[k],
                    #[trigger] self.acts@[k],
                ) by {
                    if k < old(self).acts@.len() {
                        assert(self.acts@[k] == before_tail[k]);
                        assert(before_tail[k] == old(self).acts@[k]);
                        assert(act_eq_view(target[k], target[k]));
                        assert(target[k] == old(self).acts@[k]);
                        lemma_act_eq_view_refl(target[k]);
                    } else if k == old(self).acts@.len() {
                        assert(self.acts@[k] == before_tail[k]);
                        assert(before_tail[k] == first);
                        assert(target[k] == acts@[0]);
                        assert(act_eq_view(acts@[0], first));
                    } else {
                        assert(act_eq_view(
                            acts@[1 + (k - before_tail.len())],
                            self.acts@[before_tail.len() + (k - before_tail.len())],
                        ));
                        assert(target[k] == acts@[k - old(self).acts@.len()]);
                    }
                }
                assert(acts_like(self.acts@, target));
            }
        }
    }

    /// Appends `acts[from..]` to the queue, element for element.
    fn push_tail(&mut self, acts: &Vec<Action<u32>>, from: usize)
        requires
            from <= acts@.len(),
        ensures
            final(self).replay@ == old(self).replay@,
            final(self).resume == old(self).resume,
            final(self).acting == old(self).acting,
            final(self).sym_code == old(self).sym_code,
            final(self).last_add@ == old(self).last_add@,
            final(self).acts@.len() == old(self).acts@.len() + (acts@.len() - from),
            forall|k: int|
                0 <= k < old(self).acts@.len() ==> final(self).acts@[k] == old(self).acts@[k],
            forall|k: int|
                0 <= k < acts@.len() - from ==> act_eq_view(
                    acts@[from + k],
                    #[trigger] final(self).acts@[old(self).acts@.len() + k],
                ),
    {
        let mut j = from;
        while j < acts.len()
            invariant
                from <= j <= acts@.len(),
                old(self).replay@ == self.replay@,
                old(self).resume == self.resume,
                old(self).acting == self.acting,
                old(self).sym_code == self.sym_code,
                old(self).last_add@ == self.last_add@,
                self.acts@.len() == old(self).acts@.len() + (j - from),
                forall|k: int| 0 <= k < old(self).acts@.len() ==> self.acts@[k] == old(self).acts@[k],
                forall|k: int|
                    0 <= k < j - from ==> act_eq_view(
                        acts@[from + k],
                        #[trigger] self.acts@[old(self).acts@.len() + k],
                    ),
            decreases acts@.len() - j,
        {
            let a = dup_action(&acts[j]);
            self.acts.push_back(a);
            j += 1;
        }
    }

    /// Queues a missed run's raw events for replay, unless there are too
    /// many of them: more than eight are dropped as a safety valve.
    pub fn add_unmatch(&mut self, seq: &Vec<(u8, bool)>)
        ensures
            final(self).acts@ == old(self).acts@,
            final(self).last_add@ == old(self).last_add@,
            final(self).resume == old(self).resume,
            final(self).acting == old(self).acting,
            final(self).sym_code == old(self).sym_code,
            seq@.len() > 8 ==> final(self).replay@ == old(self).replay@,
            seq@.len() <= 8 ==> final(self).replay@ == old(self).replay@ + seq@,
    {
        if seq.len() > 8 {
            return;
        }
        let mut i: usize = 0;
        while i < seq.len()
            invariant
                i <= seq@.len(),
                old(self).acts@ == self.acts@,
                old(self).last_add@ == self.last_add@,
                old(self).resume == self.resume,
                old(self).acting == self.acting,
                old(self).sym_code == self.sym_code,
                self.replay@ =~= old(self).replay@ + seq@.take(i as int),
            decreases seq@.len() - i,
        {
            self.replay.push_back(seq[i]);
            proof {
                assert(old(self).replay@ + seq@.take(i + 1) =~= (old(self).replay@ + seq@.take(
                    i as int,
                )).push(seq@[i as int]));
            }
            i += 1;
        }
        proof {
            assert(seq@.take(seq@.len() as int) =~= seq@);
        }
    }
}

/// When the first `k` queued actions are instant and the next is not,
/// the search for the first real action lands on it.
proof fn lemma_first_real_from(q: Seq<Action<u32>>, j: int, k: int)
    requires
        0 <= j <= k < q.len(),
        forall|t: int| j <= t < k ==> instant(#[trigger] q[t]),
        !instant(q[k]),
    ensures
        first_real(q, j) == k,
    decreases k - j,
{
    if j < k {
        lemma_first_real_from(q, j + 1, k);
    }
}

/// With only instant actions left, the search runs off the end.
proof fn lemma_first_real_all(q: Seq<Action<u32>>, j: int)
    requires
        0 <= j <= q.len(),
        forall|t: int| j <= t < q.len() ==> instant(#[trigger] q[t]),
    ensures
        first_real(q, j) == q.len(),
    decreases q.len() - j,
{
    if j < q.len() {
        lemma_first_real_all(q, j + 1);
    }
}

/// Disposing of one more action appends its spawn, if it has one.
proof fn lemma_spawn_ems_push(s: Seq<Action<u32>>, x: Action<u32>)
    ensures
        spawn_ems(s.push(x)) =~= spawn_ems(s) + (match x {
            Action::Exec(w) => seq![Emit::Spawn(w)],
            _ => Seq::<Emit>::empty(),
        }),
    decreases s.len(),
{
    let tail = (match x {
        Action::Exec(w) => seq![Emit::Spawn(w)],
        _ => Seq::<Emit>::empty(),
    });
    if s.len() == 0 {
        assert(s.push(x)[0] == x);
        assert(s.push(x).drop_first() =~= Seq::<Action<u32>>::empty());
        assert(spawn_ems(s.push(x)) =~= tail + spawn_ems(Seq::<Action<u32>>::empty()));
        assert(spawn_ems(s) =~= Seq::<Emit>::empty());
    } else {
        assert(s.push(x)[0] == s[0]);
        assert(s.push(x).drop_first() =~= s.drop_first().push(x));
        lemma_spawn_ems_push(s.drop_first(), x);
        assert(spawn_ems(s.push(x)) =~= (match s[0] {
            Action::Exec(w) => seq![Emit::Spawn(w)],
            _ => Seq::<Emit>::empty(),
        }) + spawn_ems(s.drop_first().push(x)));
        assert(spawn_ems(s.drop_first().push(x)) =~= spawn_ems(s.drop_first()) + tail);
    }
}

/// The step functions read the allocator only through its views.
proof fn lemma_step_views(a: RunAct, p1: SymCode, p2: SymCode)
    requires
        p1.def_syms.pairs@ == p2.def_syms.pairs@,
        p1.mut_syms@ == p2.mut_syms@,
        p1.shift == p2.shift,
    ensures
        step_sl(a, p1) == step_sl(a, p2),
        step_rv(a, p1) == step_rv(a, p2),
        step_mut(a, p1) == step_mut(a, p2),
        step_em(a, p1) == step_em(a, p2),
{
}

/// What follows the in-progress action in one dispatcher step: the head
/// of the replay queue if any, else the instant actions are disposed of
/// and the first real one starts; with nothing left the dispatcher goes
/// idle.
pub open spec fn tail_post(pre: Xdo, post: Xdo, now: u64, sl: Option<u64>, em: Seq<Emit>) -> bool {
    &&& post.sym_code.shift == pre.sym_code.shift
    &&& post.sym_code.def_syms.pairs@ == pre.sym_code.def_syms.pairs@
    &&& post.last_add@ == pre.last_add@
    &&& if pre.replay@.len() > 0 {
        &&& post.replay@ == pre.replay@.drop_first()
        &&& em =~= seq![Emit::Key(pre.replay@[0].0 as u32, pre.replay@[0].1)]
        &&& sl == Some(3u64)
        &&& post.resume == now + 3
        &&& post.acting is None
        &&& post.acts@ == pre.acts@
        &&& post.sym_code.mut_syms@ == pre.sym_code.mut_syms@
    } else {
        let q = pre.acts@;
        let k = first_real(q, 0);
        &&& post.replay@ == pre.replay@
        &&& if k < q.len() {
            let a0 = init_act(q[k]);
            &&& post.acts@ == q.skip(k + 1)
            &&& em =~= spawn_ems(q.take(k)) + step_em(a0, pre.sym_code)
            &&& sl == Some(step_sl(a0, pre.sym_code))
            &&& post.resume == now + step_sl(a0, pre.sym_code)
            &&& post.acting matches Some(a2) && rv(a2) == step_rv(a0, pre.sym_code)
            &&& post.sym_code.mut_syms@ == step_mut(a0, pre.sym_code)
        } else {
            &&& post.acts@.len() == 0
            &&& em =~= spawn_ems(q)
            &&& sl is None
            &&& post.acting is None
            &&& post.resume == pre.resume
            &&& post.sym_code.mut_syms@ == pre.sym_code.mut_syms@
        }
    }
}

impl Xdo {
    /// One dispatcher step at instant `now` (in milliseconds): returns
    /// how long to wait before calling again (`None` when idle) and the
    /// injections to perform now, in order.
    pub fn proc(&mut self, now: u64) -> (r: (Option<u64>, Vec<Emit>))
        requires
            old(self).wf(),
            now <= u64::MAX - 12,
        ensures
            final(self).wf(),
            final(self).last_add@ == old(self).last_add@,
            final(self).sym_code.shift == old(self).sym_code.shift,
            final(self).sym_code.def_syms.pairs@ == old(self).sym_code.def_syms.pairs@,
            now < old(self).resume ==> r.0 == Some((old(self).resume - now) as u64) && r.1@.len()
                == 0 && *final(self) == *old(self),
            now >= old(self).resume ==> match old(self).acting {
                Some(a) => {
                    if !act_done(a) {
                        &&& r.0 == Some(step_sl(a, old(self).sym_code))
                        &&& final(self).resume == now + step_sl(a, old(self).sym_code)
                        &&& final(self).acting matches Some(a2) && rv(a2) == step_rv(
                            a,
                            old(self).sym_code,
                        )
                        &&& final(self).sym_code.mut_syms@ == step_mut(a, old(self).sym_code)
                        &&& r.1@ == step_em(a, old(self).sym_code)
                        &&& final(self).acts@ == old(self).acts@
                        &&& final(self).replay@ == old(self).replay@
                    } else {
                        &&& r.1@.len() >= done_em(a).len()
                        &&& r.1@.take(done_em(a).len() as int) == done_em(a)
                        &&& tail_post(
                            *old(self),
                            *final(self),
                            now,
                            r.0,
                            r.1@.skip(done_em(a).len() as int),
                        )
                    }
                },
                None => tail_post(*old(self), *final(self), now, r.0, r.1@),
            },
    {
        let mut emits: Vec<Emit> = Vec::new();
        if now < self.resume {
            return (Some(self.resume - now), emits);
        }
        let acting = self.acting.take();
        let ghost mut n_done_em: int = 0;
        match acting {
            Some(act) => {
                let ghost act_g = act;
                let (act2, sl, mut em) = act.proc(&mut self.sym_code);
                emits.append(&mut em);
                if let Some(d) = sl {
                    self.acting = Some(act2);
                    self.resume = now + d;
                    return (Some(d), emits);
                }
                proof {
                    n_done_em = done_em(act_g).len() as int;
                    assert(emits@ =~= done_em(act_g));
                }
            },
            None => {},
        }
        match self.replay.pop_front() {
            Some((c, p)) => {
                emits.push(Emit::Key(c as u32, p));
                self.resume = now + 3;
                proof {
                    assert(emits@.skip(n_done_em) =~= seq![
                        Emit::Key(old(self).replay@[0].0 as u32, old(self).replay@[0].1),
                    ]);
                    assert(emits@.take(n_done_em) =~= emits@.take(n_done_em));
                    assert(self.replay@ =~= old(self).replay@.drop_first());
                }
                return (Some(3), emits);
            },
            None => {},
        }
        let ghost q0 = self.acts@;
        let ghost em_base = emits@;
        let ghost shift0 = self.sym_code.shift;
        let ghost def0 = self.sym_code.def_syms.pairs@;
        let ghost mut0 = self.sym_code.mut_syms@;
        let ghost uu0 = self.sym_code.uu.ranges@;
        let ghost rp0 = self.replay@;
        let ghost rs0 = self.resume;
        let ghost la0 = self.last_add@;
        let ghost mut k: int = 0;
        proof {
            assert(q0.skip(0) =~= q0);
            assert(q0.take(0) =~= Seq::<Action<u32>>::empty());
            assert(em_base =~= em_base + spawn_ems(q0.take(0)));
        }
        while self.acts.len() > 0
            invariant
                now <= u64::MAX - 12,
                now >= old(self).resume,
                q0 == old(self).acts@,
                rp0 == old(self).replay@,
                rp0.len() == 0,
                rs0 == old(self).resume,
                la0 == old(self).last_add@,
                shift0 == old(self).sym_code.shift,
                def0 == old(self).sym_code.def_syms.pairs@,
                mut0 == old(self).sym_code.mut_syms@,
                old(self).acting matches Some(a) ==> act_done(a) && em_base == done_em(a)
                    && n_done_em == done_em(a).len(),
                old(self).acting is None ==> em_base =~= Seq::<Emit>::empty() && n_done_em == 0,
                0 <= k <= q0.len(),
                self.acts@ == q0.skip(k),
                forall|j: int| 0 <= j < k ==> instant(#[trigger] q0[j]),
                emits@ =~= em_base + spawn_ems(q0.take(k)),
                self.replay@ == rp0,
                self.acting is None,
                self.resume == rs0,
                self.last_add@ == la0,
                self.sym_code.wf(),
                self.sym_code.shift == shift0,
                self.sym_code.def_syms.pairs@ == def0,
                self.sym_code.mut_syms@ == mut0,
                self.sym_code.uu.ranges@ == uu0,
            decreases self.acts@.len(),
        {
            let action = self.acts.pop_front().unwrap();
            proof {
                assert(action == q0.skip(k)[0]);
                assert(action == q0[k]);
                assert(q0.skip(k).subrange(1, q0.skip(k).len() as int) =~= q0.skip(k + 1));
                assert(q0.take(k + 1) =~= q0.take(k).push(q0[k]));
            }
            match sing(action) {
                Sing::Run(a) => {
                    let ghost syc_pre = self.sym_code;
                    let ghost a_g = a;
                    let (a2, sl, mut em) = a.proc(&mut self.sym_code);
                    emits.append(&mut em);
                    match sl {
                        Some(d) => {
                            self.acting = Some(a2);
                            self.resume = now + d;
                            proof {
                                assert(!act_done(a_g));
                                assert(!instant(q0[k as int]));
                                lemma_first_real_from(q0, 0, k);
                                lemma_step_views(a_g, syc_pre, old(self).sym_code);
                                assert(emits@ =~= (em_base + spawn_ems(q0.take(k)))
                                    + step_em(a_g, syc_pre));
                                assert(emits@.skip(n_done_em) =~= spawn_ems(q0.take(k)) + step_em(
                                    init_act(q0[k]),
                                    old(self).sym_code,
                                ));
                                assert(em_base.take(n_done_em) =~= em_base);
                                assert(emits@.take(n_done_em) =~= em_base);
                            }
                            return (Some(d), emits);
                        },
                        None => {
                            proof {
                                assert(act_done(a_g));
                                assert(instant(q0[k as int]));
                                assert(done_em(a_g) =~= Seq::<Emit>::empty());
                                lemma_spawn_ems_push(q0.take(k), q0[k as int]);
                                assert(emits@ =~= em_base + spawn_ems(q0.take(k + 1)));
                                k = k + 1;
                            }
                        },
                    }
                },
                Sing::Em(e) => {
                    emits.push(e);
                    proof {
                        lemma_spawn_ems_push(q0.take(k), q0[k as int]);
                        assert(emits@ =~= em_base + spawn_ems(q0.take(k + 1)));
                        k = k + 1;
                    }
                },
                Sing::Skip => {
                    proof {
                        lemma_spawn_ems_push(q0.take(k), q0[k as int]);
                        assert(emits@ =~= em_base + spawn_ems(q0.take(k + 1)));
                        k = k + 1;
                    }
                },
            }
        }
        proof {
            assert(self.acts@.len() == 0);
            assert(k == q0.len());
            lemma_first_real_all(q0, 0);
            assert(q0.take(k) =~= q0);
            assert(emits@.skip(n_done_em) =~= spawn_ems(q0));
            assert(em_base.take(n_done_em) =~= em_base);
            assert(emits@.take(n_done_em) =~= em_base);
        }
        (None, emits)
    }
}

/// The keysym a character is typed with, as a machine value.
pub fn char_keysym(c: char) -> (r: u32)
    ensures
        r == keysym_of_char(c),
{
    let u = c as u32;
    if u <= 0x7F || (0xA0 <= u && u <= 0xFF) {
        u
    } else {
        u + 0x1000000
    }
}

} // verus!
