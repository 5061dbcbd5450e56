//! The binding map: sequences of keycodes bound to lists of actions.
//!
//! Lines of the configuration arrive here already parsed into key names
//! and actions over names.  The builder resolves the names to keysyms,
//! the keysyms to keycodes under the current layout, maintains the side
//! index of keys to grab, and keeps the insertion-ordered map in which a
//! later binding for the same sequence replaces the earlier one.

use vstd::prelude::*;

use crate::names::{NameMap, resolve_name, spec_resolve};
use crate::smovec::{SmoVec, admissible_len, codes_eq};
use crate::table::{Table, assoc_get};

verus! {

/// An action a matched sequence triggers.
#[derive(Debug, PartialEq, Eq)]
pub enum Action<K> {
    /// Text to be typed character by character.
    Text(Vec<char>),
    /// Keysyms pressed in order, then released in the same order.
    KeyStroke(Vec<K>),
    /// One press/release pair of a pointer button.
    MouseClick(u8),
    /// Replays the previous action list this many more times.
    Repeat(u8),
    /// Spawns a detached process.
    Exec(Vec<Vec<char>>),
}

/// The views of a vector of character vectors.
pub open spec fn words_view(v: Seq<Vec<char>>) -> Seq<Seq<char>> {
    Seq::new(v.len(), |i: int| v[i]@)
}

/// Whether every key name an action mentions resolves to a keysym.
pub open spec fn act_resolvable(a: Action<Vec<char>>, xn: Seq<(Vec<char>, u32)>) -> bool {
    match a {
        Action::KeyStroke(names) => forall|i: int|
            0 <= i < names@.len() ==> spec_resolve((#[trigger] names@[i])@, xn) is Some,
        _ => true,
    }
}

/// How a resolved action corresponds to its source: the same kind and
/// payload, with keystroke names replaced by the keysyms they resolve to.
pub open spec fn act_rel(a: Action<Vec<char>>, b: Action<u32>, xn: Seq<(Vec<char>, u32)>) -> bool {
    match a {
        Action::Text(t) => b matches Action::Text(t2) && t2@ == t@,
        Action::KeyStroke(names) => b matches Action::KeyStroke(v) && v@.len() == names@.len()
            && forall|i: int|
            0 <= i < v@.len() ==> spec_resolve((#[trigger] names@[i])@, xn) == Some(v@[i]),
        Action::MouseClick(x) => b matches Action::MouseClick(y) && y == x,
        Action::Repeat(x) => b matches Action::Repeat(y) && y == x,
        Action::Exec(args) => b matches Action::Exec(a2) && words_view(a2@) == words_view(args@),
    }
}

impl Action<Vec<char>> {
    /// Resolves the key names of a keystroke action to keysyms; every
    /// other action kind passes through unchanged.  `None` when a name
    /// does not resolve.
    pub fn trans_key(&self, xnames: &NameMap) -> (r: Option<Action<u32>>)
        ensures
            r is Some <==> act_resolvable(*self, xnames.pairs@),
            r matches Some(b) ==> act_rel(*self, b, xnames.pairs@),
    {
        match self {
            Action::Text(t) => Some(Action::Text(crate::names::copy_chars(t))),
            Action::KeyStroke(names) => {
                match crate::names::resolve_names(names, xnames) {
                    Ok(v) => Some(Action::KeyStroke(v)),
                    Err(_i) => None,
                }
            },
            Action::MouseClick(b) => Some(Action::MouseClick(*b)),
            Action::Repeat(n) => Some(Action::Repeat(*n)),
            Action::Exec(args) => Some(Action::Exec(copy_words(args))),
        }
    }
}

/// A copy of a vector of words.
pub fn copy_words(args: &Vec<Vec<char>>) -> (r: Vec<Vec<char>>)
    ensures
        words_view(r@) == words_view(args@),
        r@.len() == args@.len(),
{
    let mut a2: Vec<Vec<char>> = Vec::new();
    let mut i: usize = 0;
    while i < args.len()
        invariant
            i <= args@.len(),
            a2@.len() == i,
            forall|j: int| 0 <= j < i ==> (#[trigger] a2@[j])@ == args@[j]@,
        decreases args@.len() - i,
    {
        a2.push(crate::names::copy_chars(&args[i]));
        i += 1;
    }
    assert(words_view(a2@) =~= words_view(args@));
    a2
}

/// Walks a sequence of keycodes from the front, folding the modifier
/// masks of leading modifier keys, until the first non-modifier key:
/// that key, under the folded mask, is what the server must grab for
/// the binding to be seen.  `None` when every key is a modifier.
pub open spec fn spec_beginning(kseq: Seq<u8>, mods: Seq<(u32, u32)>, acc: u32) -> Option<
    (u8, u32),
>
    decreases kseq.len(),
{
    if kseq.len() == 0 {
        None
    } else {
        match assoc_get(mods, kseq[0] as u32) {
            Some(m) => spec_beginning(kseq.drop_first(), mods, acc ^ m),
            None => Some((kseq[0], acc)),
        }
    }
}

/// The first non-modifier keycode of a sequence together with the
/// modifier mask folded from the keys before it.
pub fn beginning(kseq: &[u8], keycode_mod: &Table<u32>) -> (r: Option<(u8, u32)>)
    ensures
        r == spec_beginning(kseq@, keycode_mod.pairs@, 0),
{
    let mut mo: u32 = 0;
    let mut i: usize = 0;
    proof {
        assert(kseq@.skip(0) =~= kseq@);
    }
    while i < kseq.len()
        invariant
            i <= kseq@.len(),
            spec_beginning(kseq@, keycode_mod.pairs@, 0) == spec_beginning(
                kseq@.skip(i as int),
                keycode_mod.pairs@,
                mo,
            ),
        decreases kseq@.len() - i,
    {
        let k = kseq[i];
        proof {
            assert(kseq@.skip(i as int)[0] == kseq@[i as int]);
            assert(kseq@.skip(i as int).drop_first() =~= kseq@.skip(i + 1));
        }
        match keycode_mod.get(k as u32) {
            Some(m) => {
                mo = mo ^ m;
            },
            None => {
                return Some((k, mo));
            },
        }
        i += 1;
    }
    proof {
        assert(kseq@.skip(kseq@.len() as int) =~= Seq::<u8>::empty());
    }
    None
}

/// Whether the grab index holds keycode `c` under mask `m`.
pub open spec fn has_grab(s: Seq<(u8, u32)>, c: u8, m: u32) -> bool {
    exists|i: int| 0 <= i < s.len() && s[i] == (c, m)
}

/// The side index of keys to grab: (keycode, modifier mask) pairs.
#[derive(Debug)]
pub struct GrabSet {
    pub pairs: Vec<(u8, u32)>,
}

impl GrabSet {
    pub fn new() -> (r: Self)
        ensures
            r.pairs@.len() == 0,
    {
        GrabSet { pairs: Vec::new() }
    }

    /// Adds a (keycode, mask) pair unless it is already present.
    pub fn insert(&mut self, c: u8, m: u32)
        ensures
            forall|c2: u8, m2: u32|
                #[trigger] has_grab(final(self).pairs@, c2, m2) <==> (has_grab(
                    old(self).pairs@,
                    c2,
                    m2,
                ) || (c2 == c && m2 == m)),
    {
        let n = self.pairs.len();
        let mut i: usize = 0;
        while i < n
            invariant
                i <= n,
                n == self.pairs@.len(),
                self == old(self),
                forall|j: int| 0 <= j < i ==> self.pairs@[j] != (c, m),
            decreases n - i,
        {
            let (pc, pm) = self.pairs[i];
            if pc == c && pm == m {
                proof {
                    assert(has_grab(self.pairs@, c, m));
                    assert forall|c2: u8, m2: u32| #[trigger]
                        has_grab(self.pairs@, c2, m2) <==> (has_grab(old(self).pairs@, c2, m2) || (
                        c2 == c && m2 == m)) by {};
                }
                return;
            }
            i += 1;
        }
        let ghost s0 = self.pairs@;
        self.pairs.push((c, m));
        proof {
            assert forall|c2: u8, m2: u32| #[trigger]
                has_grab(self.pairs@, c2, m2) <==> (has_grab(s0, c2, m2) || (c2 == c && m2
                == m)) by {
                crate::layout::lemma_push_contains(s0, (c, m), (c2, m2));
                assert(has_grab(self.pairs@, c2, m2) == self.pairs@.contains((c2, m2)));
                assert(has_grab(s0, c2, m2) == s0.contains((c2, m2)));
            }
        }
    }
}

/// The actions bound to the sequence whose keycodes are `q`, if any.
pub open spec fn map_acts(s: Seq<(SmoVec<u8>, Vec<Action<u32>>)>, q: Seq<u8>) -> Option<
    Seq<Action<u32>>,
>
    decreases s.len(),
{
    if s.len() == 0 {
        None
    } else if s[0].0@ == q {
        Some(s[0].1@)
    } else {
        map_acts(s.drop_first(), q)
    }
}

/// Each sequence is bound at most once.
pub open spec fn map_keys_unique(s: Seq<(SmoVec<u8>, Vec<Action<u32>>)>) -> bool {
    forall|i: int, j: int| 0 <= i < j < s.len() ==> (#[trigger] s[i]).0@ != (#[trigger] s[j]).0@
}

proof fn lemma_map_acts_skip(s: Seq<(SmoVec<u8>, Vec<Action<u32>>)>, q: Seq<u8>, i: int)
    requires
        0 <= i <= s.len(),
        forall|j: int| 0 <= j < i ==> (#[trigger] s[j]).0@ != q,
    ensures
        map_acts(s, q) == map_acts(s.skip(i), q),
    decreases i,
{
    if i > 0 {
        lemma_map_acts_skip(s.drop_first(), q, i - 1);
        assert(s.drop_first().skip(i - 1) =~= s.skip(i));
    } else {
        assert(s.skip(0) =~= s);
    }
}

proof fn lemma_map_acts_present(s: Seq<(SmoVec<u8>, Vec<Action<u32>>)>, q: Seq<u8>, i: int)
    requires
        0 <= i < s.len(),
        s[i].0@ == q,
        forall|j: int| 0 <= j < i ==> (#[trigger] s[j]).0@ != q,
    ensures
        map_acts(s, q) == Some(s[i].1@),
{
    lemma_map_acts_skip(s, q, i);
    assert(s.skip(i)[0] == s[i]);
}

proof fn lemma_map_acts_push(
    s: Seq<(SmoVec<u8>, Vec<Action<u32>>)>,
    e: (SmoVec<u8>, Vec<Action<u32>>),
    q: Seq<u8>,
)
    ensures
        map_acts(s.push(e), q) == if map_acts(s, q) is Some {
            map_acts(s, q)
        } else if e.0@ == q {
            Some(e.1@)
        } else {
            None::<Seq<Action<u32>>>
        },
    decreases s.len(),
{
    if s.len() == 0 {
        assert(s.push(e)[0] == e);
        if e.0@ == q {
            assert(map_acts(s.push(e), q) == Some(e.1@));
        } else {
            let emp = Seq::<(SmoVec<u8>, Vec<Action<u32>>)>::empty();
            assert(s.push(e).drop_first() =~= emp);
            assert(map_acts(emp, q) is None);
            assert(map_acts(s.push(e), q) == map_acts(s.push(e).drop_first(), q));
            assert(map_acts(s.push(e), q) is None);
        }
    } else {
        assert(s.push(e)[0] == s[0]);
        if s[0].0@ == q {
            assert(map_acts(s.push(e), q) == Some(s.push(e)[0].1@));
            assert(map_acts(s, q) == Some(s[0].1@));
        } else {
            assert(s.push(e).drop_first() =~= s.drop_first().push(e));
            lemma_map_acts_push(s.drop_first(), e, q);
            assert(map_acts(s.push(e), q) == map_acts(s.drop_first().push(e), q));
            assert(map_acts(s, q) == map_acts(s.drop_first(), q));
        }
    }
}

proof fn lemma_map_acts_update(
    s: Seq<(SmoVec<u8>, Vec<Action<u32>>)>,
    i: int,
    e: (SmoVec<u8>, Vec<Action<u32>>),
    q: Seq<u8>,
)
    requires
        0 <= i < s.len(),
        s[i].0@ == e.0@,
        forall|j: int| 0 <= j < i ==> (#[trigger] s[j]).0@ != e.0@,
    ensures
        map_acts(s.update(i, e), q) == if q == e.0@ {
            Some(e.1@)
        } else {
            map_acts(s, q)
        },
    decreases i,
{
    if i == 0 {
        if q != e.0@ {
            assert(s.update(0, e).drop_first() =~= s.drop_first());
        }
    } else {
        assert(s.update(i, e).drop_first() =~= s.drop_first().update(i - 1, e));
        lemma_map_acts_update(s.drop_first(), i - 1, e, q);
    }
}

/// Binds a sequence in the map, replacing any earlier binding of the same
/// sequence, whose actions are handed back.
fn map_put(
    m: &mut Vec<(SmoVec<u8>, Vec<Action<u32>>)>,
    ks: SmoVec<u8>,
    acts: Vec<Action<u32>>,
) -> (r: Option<Vec<Action<u32>>>)
    requires
        map_keys_unique(old(m)@),
    ensures
        map_keys_unique(final(m)@),
        forall|q: Seq<u8>| #[trigger] map_acts(final(m)@, q) == if q == ks@ {
            Some(acts@)
        } else {
            map_acts(old(m)@, q)
        },
        match map_acts(old(m)@, ks@) {
            Some(olda) => r matches Some(v) && v@ == olda,
            None => r is None,
        },
{
    let n = m.len();
    let ghost ksv = ks@;
    let mut i: usize = 0;
    while i < n
        invariant
            i <= n,
            n == m@.len(),
            m == old(m),
            map_keys_unique(m@),
            ksv == ks@,
            forall|j: int| 0 <= j < i ==> (#[trigger] m@[j]).0@ != ksv,
        decreases n - i,
    {
        if codes_eq(m[i].0.slice(), ks.slice()) {
            let ghost s0 = m@;
            proof {
                lemma_map_acts_present(s0, ksv, i as int);
            }
            let old_entry = m.remove(i);
            m.insert(i, (ks, acts));
            proof {
                assert(m@ =~= s0.update(i as int, (ks, acts)));
                assert forall|q: Seq<u8>| #[trigger]
                    map_acts(m@, q) == if q == ksv {
                        Some(acts@)
                    } else {
                        map_acts(s0, q)
                    } by {
                    lemma_map_acts_update(s0, i as int, (ks, acts), q);
                }
                assert forall|a: int, b: int|
                    0 <= a < b < m@.len() implies (#[trigger] m@[a]).0@ != (
                #[trigger] m@[b]).0@ by {
                    assert(s0[a].0@ != s0[b].0@);
                    assert(m@[a].0@ == if a == i {
                        ksv
                    } else {
                        s0[a].0@
                    });
                    assert(m@[b].0@ == if b == i {
                        ksv
                    } else {
                        s0[b].0@
                    });
                    assert(s0[i as int].0@ == ksv);
                }
            }
            return Some(old_entry.1);
        }
        i += 1;
    }
    let ghost s0 = m@;
    m.push((ks, acts));
    proof {
        lemma_map_acts_skip(s0, ksv, n as int);
        assert forall|q: Seq<u8>| #[trigger]
            map_acts(m@, q) == if q == ksv {
                Some(acts@)
            } else {
                map_acts(s0, q)
            } by {
            lemma_map_acts_push(s0, (ks, acts), q);
        }
        assert forall|a: int, b: int|
            0 <= a < b < m@.len() implies (#[trigger] m@[a]).0@ != (#[trigger] m@[b]).0@ by {
            if b == m@.len() - 1 {
                assert(m@[a].0@ == s0[a].0@);
            } else {
                assert(s0[a].0@ != s0[b].0@);
            }
        }
    }
    None
}

/// The keycode each keysym maps to, zero when the layout has none.
pub open spec fn sym_code(t: Seq<(u32, u8)>, s: u32) -> u8 {
    match assoc_get(t, s) {
        Some(c) => c,
        None => 0,
    }
}

/// Maps each keysym of a sequence to its keycode, or reports the first
/// one with no keycode under the current layout.
fn codes_of_syms(t: &Table<u8>, syms: &Vec<u32>) -> (r: Result<Vec<u8>, usize>)
    ensures
        match r {
            Ok(v) => v@.len() == syms@.len() && (forall|i: int|
                0 <= i < syms@.len() ==> #[trigger] v@[i] == sym_code(t.pairs@, syms@[i]))
                && forall|i: int| 0 <= i < syms@.len() ==> #[trigger] v@[i] != 0,
            Err(i) => i < syms@.len() && sym_code(t.pairs@, syms@[i as int]) == 0 && forall|j: int|
                0 <= j < i ==> #[trigger] sym_code(t.pairs@, syms@[j]) != 0,
        },
{
    let mut v: Vec<u8> = Vec::new();
    let mut i: usize = 0;
    while i < syms.len()
        invariant
            i <= syms@.len(),
            v@.len() == i,
            forall|j: int| 0 <= j < i ==> #[trigger] v@[j] == sym_code(t.pairs@, syms@[j]),
            forall|j: int| 0 <= j < i ==> #[trigger] v@[j] != 0,
        decreases syms@.len() - i,
    {
        let c = match t.get(syms[i]) {
            Some(c) => c,
            None => 0,
        };
        if c == 0 {
            proof {
                assert(sym_code(t.pairs@, syms@[i as int]) == 0);
                assert forall|j: int| 0 <= j < i implies #[trigger] sym_code(
                    t.pairs@,
                    syms@[j],
                ) != 0 by {
                    assert(v@[j] != 0);
                }
            }
            return Err(i);
        }
        v.push(c);
        i += 1;
    }
    Ok(v)
}

/// Resolves a list of actions over names into actions over keysyms, or
/// fails on the first action with an unresolvable name.
fn trans_acts(acts: &Vec<Action<Vec<char>>>, xnames: &NameMap) -> (r: Option<Vec<Action<u32>>>)
    ensures
        r is Some <==> forall|k: int|
            0 <= k < acts@.len() ==> act_resolvable(#[trigger] acts@[k], xnames.pairs@),
        r matches Some(v) ==> v@.len() == acts@.len() && forall|k: int|
            0 <= k < acts@.len() ==> act_rel(#[trigger] acts@[k], v@[k], xnames.pairs@),
{
    let mut v: Vec<Action<u32>> = Vec::new();
    let mut i: usize = 0;
    while i < acts.len()
        invariant
            i <= acts@.len(),
            v@.len() == i,
            forall|k: int| 0 <= k < i ==> act_resolvable(#[trigger] acts@[k], xnames.pairs@),
            forall|k: int| 0 <= k < i ==> act_rel(#[trigger] acts@[k], v@[k], xnames.pairs@),
        decreases acts@.len() - i,
    {
        match acts[i].trans_key(xnames) {
            Some(b) => {
                v.push(b);
            },
            None => {
                return None;
            },
        }
        i += 1;
    }
    Some(v)
}

/// What became of one configuration line offered to the builder.
#[derive(Debug, PartialEq, Eq)]
pub enum AddOutcome {
    /// The binding was added.
    Added,
    /// The sequence was already bound; the earlier actions, replaced by
    /// the new ones, are handed back for the diagnostic.
    Replaced(Vec<Action<u32>>),
    /// More than sixteen keys in the sequence.
    TooLong,
    /// The key name at this position resolves to no keysym.
    UnknownKey(usize),
    /// The key at this position has no keycode under the current layout.
    UnknownCode(usize),
    /// A key name inside an action resolves to no keysym.
    UnknownActKey,
    /// The sequence was empty.
    Empty,
    /// The sequence length fits no shape of the container.
    BadLen,
}

/// Collects bindings line by line.
pub struct MapBuilder {
    pub grabkeys: GrabSet,
    pub map: Vec<(SmoVec<u8>, Vec<Action<u32>>)>,
    pub sym_to_code: Table<u8>,
    pub keycode_mod: Table<u32>,
    pub code_sym: Table<u32>,
}

/// The keysym of a keycode, by the latest pair of an inverted table.
pub open spec fn invert_get(s: Seq<(u32, u8)>, c: u32) -> Option<u32>
    decreases s.len(),
{
    if s.len() == 0 {
        None
    } else if s.last().1 as u32 == c {
        Some(s.last().0)
    } else {
        invert_get(s.drop_last(), c)
    }
}

impl MapBuilder {
    /// The binding map is uniquely keyed and every binding that starts
    /// with a non-modifier key has that key in the grab index under the
    /// mask its leading modifiers fold to.
    pub open spec fn wf(self) -> bool {
        &&& map_keys_unique(self.map@)
        &&& forall|i: int|
            0 <= i < self.map@.len() ==> match spec_beginning(
                (#[trigger] self.map@[i]).0@,
                self.keycode_mod.pairs@,
                0,
            ) {
                Some(g) => has_grab(self.grabkeys.pairs@, g.0, g.1),
                None => true,
            }
    }

    /// Starts an empty builder over the layout's lookup tables.
    pub fn new(sym_to_code: Table<u8>, keycode_mod: Table<u32>) -> (r: Self)
        requires
            sym_to_code.wf(),
        ensures
            r.wf(),
            r.map@.len() == 0,
            r.grabkeys.pairs@.len() == 0,
            r.sym_to_code == sym_to_code,
            r.keycode_mod == keycode_mod,
            r.code_sym.wf(),
            forall|c: u32| #[trigger] assoc_get(r.code_sym.pairs@, c) == invert_get(
                sym_to_code.pairs@,
                c,
            ),
    {
        let mut code_sym: Table<u32> = Table::new();
        let n = sym_to_code.pairs.len();
        let mut i: usize = 0;
        while i < n
            invariant
                i <= n,
                n == sym_to_code.pairs@.len(),
                code_sym.wf(),
                forall|c: u32| #[trigger] assoc_get(code_sym.pairs@, c) == invert_get(
                    sym_to_code.pairs@.take(i as int),
                    c,
                ),
            decreases n - i,
        {
            let (s, c) = sym_to_code.pairs[i];
            code_sym.insert(c as u32, s);
            proof {
                let pre = sym_to_code.pairs@.take(i as int);
                let now = sym_to_code.pairs@.take(i + 1);
                assert(now.last() == sym_to_code.pairs@[i as int]);
                assert(now.drop_last() =~= pre);
            }
            i += 1;
        }
        proof {
            assert(sym_to_code.pairs@.take(n as int) =~= sym_to_code.pairs@);
        }
        MapBuilder {
            grabkeys: GrabSet::new(),
            map: Vec::new(),
            sym_to_code,
            keycode_mod,
            code_sym,
        }
    }

    /// Adds one parsed configuration line: a sequence of key names and
    /// the actions bound to it.  `xnames` holds the display library's
    /// name lookups for this line.
    pub fn add(
        &mut self,
        sq: &Vec<Vec<char>>,
        acts: &Vec<Action<Vec<char>>>,
        xnames: &NameMap,
    ) -> (r: AddOutcome)
        requires
            old(self).wf(),
        ensures
            final(self).wf(),
            final(self).sym_to_code == old(self).sym_to_code,
            final(self).keycode_mod == old(self).keycode_mod,
            final(self).code_sym == old(self).code_sym,
            sq@.len() > 16 ==> r == AddOutcome::TooLong && *final(self) == *old(self),
            ({
                let xn = xnames.pairs@;
                let n = sq@.len() as int;
                let st = old(self).sym_to_code.pairs@;
                n <= 16 ==> {
                    if exists|i: int| 0 <= i < n && spec_resolve((#[trigger] sq@[i])@, xn)
                        is None {
                        (r matches AddOutcome::UnknownKey(i) && i < n && spec_resolve(
                            sq@[i as int]@,
                            xn,
                        ) is None) && *final(self) == *old(self)
                    } else {
                        let codes = Seq::new(n as nat, |i: int| sym_code(st, spec_resolve(sq@[i]@, xn)->0));
                        if exists|i: int| 0 <= i < n && #[trigger] codes[i] == 0 {
                            (r matches AddOutcome::UnknownCode(i) && i < n && codes[
                                i as int] == 0) && *final(self) == *old(self)
                        } else {
                            (forall|c2: u8, m2: u32|
                                #[trigger] has_grab(final(self).grabkeys.pairs@, c2, m2) <==> (
                                has_grab(old(self).grabkeys.pairs@, c2, m2) || Some((c2, m2))
                                    == spec_beginning(codes, old(self).keycode_mod.pairs@, 0)))
                                && {
                                if !(forall|k: int|
                                    0 <= k < acts@.len() ==> act_resolvable(
                                        #[trigger] acts@[k],
                                        xn,
                                    )) {
                                    r == AddOutcome::UnknownActKey && final(self).map@ == old(
                                        self,
                                    ).map@
                                } else if n == 0 {
                                    r == AddOutcome::Empty && final(self).map@ == old(self).map@
                                } else if !admissible_len(n) {
                                    r == AddOutcome::BadLen && final(self).map@ == old(self).map@
                                } else {
                                    (forall|q: Seq<u8>|
                                        #[trigger] map_acts(final(self).map@, q) == if q == codes {
                                            map_acts(final(self).map@, codes)
                                        } else {
                                            map_acts(old(self).map@, q)
                                        }) && (map_acts(final(self).map@, codes) matches Some(st2)
                                        && st2.len() == acts@.len() && forall|k: int|
                                        0 <= k < acts@.len() ==> act_rel(
                                            #[trigger] acts@[k],
                                            st2[k],
                                            xn,
                                        )) && (match map_acts(old(self).map@, codes) {
                                        Some(olda) => r matches AddOutcome::Replaced(v) && v@
                                            == olda,
                                        None => r == AddOutcome::Added,
                                    })
                                }
                            }
                        }
                    }
                }
            }),
    {
        if sq.len() > 16 {
            return AddOutcome::TooLong;
        }
        let syms = match crate::names::resolve_names(sq, xnames) {
            Ok(v) => v,
            Err(i) => {
                return AddOutcome::UnknownKey(i);
            },
        };
        let ghost codes_s = Seq::new(
            sq@.len() as nat,
            |i: int| sym_code(self.sym_to_code.pairs@, spec_resolve(sq@[i]@, xnames.pairs@)->0),
        );
        let seq_codes = match codes_of_syms(&self.sym_to_code, &syms) {
            Ok(v) => v,
            Err(i) => {
                proof {
                    assert(codes_s[i as int] == 0);
                }
                return AddOutcome::UnknownCode(i);
            },
        };
        proof {
            assert(seq_codes@ =~= codes_s);
        }
        if let Some((k, m)) = beginning(seq_codes.as_slice(), &self.keycode_mod) {
            self.grabkeys.insert(k, m);
        } else {
            proof {
                assert forall|c2: u8, m2: u32| #[trigger]
                    has_grab(self.grabkeys.pairs@, c2, m2) <==> (has_grab(
                    old(self).grabkeys.pairs@,
                    c2,
                    m2,
                ) || Some((c2, m2)) == spec_beginning(
                    codes_s,
                    self.keycode_mod.pairs@,
                    0,
                )) by {}
            }
        }
        let atsn = match trans_acts(acts, xnames) {
            Some(v) => v,
            None => {
                return AddOutcome::UnknownActKey;
            },
        };
        if syms.len() == 0 {
            return AddOutcome::Empty;
        }
        let ks = match SmoVec::new(seq_codes.as_slice()) {
            Some(ks) => ks,
            None => {
                return AddOutcome::BadLen;
            },
        };
        let ghost g1 = self.grabkeys.pairs@;
        let replaced = map_put(&mut self.map, ks, atsn);
        proof {
            assert forall|i: int|
                0 <= i < self.map@.len() implies match spec_beginning(
                (#[trigger] self.map@[i]).0@,
                self.keycode_mod.pairs@,
                0,
            ) {
                Some(g) => has_grab(self.grabkeys.pairs@, g.0, g.1),
                None => true,
            } by {
                if self.map@[i].0@ == codes_s {
                } else {
                    let q = self.map@[i].0@;
                    lemma_map_same_entry(old(self).map@, self.map@, i, codes_s);
                }
            }
        }
        match replaced {
            Some(v) => AddOutcome::Replaced(v),
            None => AddOutcome::Added,
        }
    }
}

/// The loaded bindings: the sequence map, the grab side index, and the
/// lookup tables needed to render diagnostics.
pub struct Mapping {
    pub grabs: GrabSet,
    pub seq_act: Vec<(SmoVec<u8>, Vec<Action<u32>>)>,
    pub keycode_mod: Table<u32>,
    pub code_sym: Table<u32>,
    pub names: NameMap,
}

impl Mapping {
    /// Sequences are uniquely bound and every binding's first
    /// non-modifier key stands in the grab index.
    pub open spec fn wf(self) -> bool {
        &&& map_keys_unique(self.seq_act@)
        &&& forall|i: int|
            0 <= i < self.seq_act@.len() ==> match spec_beginning(
                (#[trigger] self.seq_act@[i]).0@,
                self.keycode_mod.pairs@,
                0,
            ) {
                Some(g) => has_grab(self.grabs.pairs@, g.0, g.1),
                None => true,
            }
    }

    /// The actions bound to a sequence, if any.
    pub fn get(&self, v: &SmoVec<u8>) -> (r: Option<&Vec<Action<u32>>>)
        ensures
            match map_acts(self.seq_act@, v@) {
                Some(a) => r matches Some(x) && x@ == a,
                None => r is None,
            },
    {
        let n = self.seq_act.len();
        let mut i: usize = 0;
        while i < n
            invariant
                i <= n,
                n == self.seq_act@.len(),
                forall|j: int| 0 <= j < i ==> (#[trigger] self.seq_act@[j]).0@ != v@,
            decreases n - i,
        {
            if codes_eq(self.seq_act[i].0.slice(), v.slice()) {
                proof {
                    lemma_map_acts_present(self.seq_act@, v@, i as int);
                }
                return Some(&self.seq_act[i].1);
            }
            i += 1;
        }
        proof {
            lemma_map_acts_skip(self.seq_act@, v@, n as int);
        }
        None
    }
}

impl MapBuilder {
    /// Finishes the build.  `names` is the accumulated name cache, kept
    /// for rendering bindings back to text.
    pub fn build(self, names: NameMap) -> (r: Mapping)
        requires
            self.wf(),
        ensures
            r.wf(),
            r.seq_act@ == self.map@,
            r.grabs.pairs@ == self.grabkeys.pairs@,
            r.keycode_mod == self.keycode_mod,
            r.code_sym == self.code_sym,
            r.names == names,
    {
        Mapping {
            grabs: self.grabkeys,
            seq_act: self.map,
            keycode_mod: self.keycode_mod,
            code_sym: self.code_sym,
            names,
        }
    }
}

/// The first keycode of every loaded binding that starts with a
/// non-modifier key stands in the grab side-index under the mask its
/// leading modifiers fold to.  A binding whose keys are all modifiers
/// grabs nothing, so such sequences are left out.
pub proof fn lemma_first_key_grabbed(m: Mapping, i: int)
    requires
        m.wf(),
        0 <= i < m.seq_act@.len(),
        spec_beginning(m.seq_act@[i].0@, m.keycode_mod.pairs@, 0) is Some,
    ensures
        has_grab(
            m.grabs.pairs@,
            (spec_beginning(m.seq_act@[i].0@, m.keycode_mod.pairs@, 0)->0).0,
            (spec_beginning(m.seq_act@[i].0@, m.keycode_mod.pairs@, 0)->0).1,
        ),
{
}

/// An entry of the updated map whose key is not the updated one was
/// already present with the same key.
proof fn lemma_map_same_entry(
    s0: Seq<(SmoVec<u8>, Vec<Action<u32>>)>,
    s1: Seq<(SmoVec<u8>, Vec<Action<u32>>)>,
    i: int,
    ks: Seq<u8>,
)
    requires
        0 <= i < s1.len(),
        s1[i].0@ != ks,
        map_keys_unique(s0),
        map_keys_unique(s1),
        forall|q: Seq<u8>| #[trigger] map_acts(s1, q) == if q == ks {
            map_acts(s1, ks)
        } else {
            map_acts(s0, q)
        },
    ensures
        exists|j: int| 0 <= j < s0.len() && (#[trigger] s0[j]).0@ == s1[i].0@,
{
    let q = s1[i].0@;
    assert forall|j: int| 0 <= j < i implies (#[trigger] s1[j]).0@ != q by {}
    lemma_map_acts_present(s1, q, i);
    assert(map_acts(s0, q) is Some);
    lemma_map_acts_some_key(s0, q);
}

/// A sequence the map binds appears as some entry's key.
proof fn lemma_map_acts_some_key(s: Seq<(SmoVec<u8>, Vec<Action<u32>>)>, q: Seq<u8>)
    requires
        map_acts(s, q) is Some,
    ensures
        exists|j: int| 0 <= j < s.len() && (#[trigger] s[j]).0@ == q,
    decreases s.len(),
{
    if s.len() > 0 {
        if s[0].0@ == q {
            assert(s[0].0@ == q);
        } else {
            lemma_map_acts_some_key(s.drop_first(), q);
            let j = choose|j: int|
                0 <= j < s.drop_first().len() && (#[trigger] s.drop_first()[j]).0@ == q;
            assert(s[j + 1].0@ == q);
        }
    }
}

} // verus!
