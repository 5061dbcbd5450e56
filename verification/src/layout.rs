//! Views over the keyboard layout as the server reports it.
//!
//! The raw material is fetched by the front end: the flat keysym table
//! (one fixed-width row per keycode) and the flat modifier keymap (eight
//! slots of keycodes).  Everything derived from them — keysym-to-keycode
//! tables, the spare keycode pool, the modifier sets — is computed here.

use vstd::prelude::*;

use crate::table::{Table, assoc_get};

verus! {

/// Whether bit `j` of byte `b` is set.
pub open spec fn bit_of(b: u8, j: u8) -> bool {
    (b >> j) & 1 == 1
}

/// Whether position `p` is set in a packed 256-bit key bitmap.
pub open spec fn bitmap_has(s: Seq<i8>, p: u8) -> bool {
    bit_of(s[p as int / 8] as u8, (p % 8) as u8)
}

/// Membership in a sequence extended by one element.
pub proof fn lemma_push_contains<T>(s: Seq<T>, v: T, x: T)
    ensures
        s.push(v).contains(x) <==> (s.contains(x) || x == v),
{
    if s.contains(x) {
        let i = choose|i: int| 0 <= i < s.len() && s[i] == x;
        assert(s.push(v)[i] == x);
    }
    assert(s.push(v)[s.len() as int] == v);
    if s.push(v).contains(x) && x != v {
        let i = choose|i: int| 0 <= i < s.push(v).len() && s.push(v)[i] == x;
        assert(i < s.len() && s[i] == x);
    }
}

/// Unpacks a 32-byte key bitmap into the strictly increasing list of the
/// positions whose bit is set.
pub fn bits_to_poss(bits: &[i8; 32]) -> (r: Vec<u8>)
    ensures
        forall|a: int, b: int| 0 <= a < b < r@.len() ==> r@[a] < r@[b],
        forall|p: u8| r@.contains(p) <==> bitmap_has(bits@, p),
{
    let mut r: Vec<u8> = Vec::new();
    let mut i: usize = 0;
    while i < 32
        invariant
            i <= 32,
            forall|a: int, b: int| 0 <= a < b < r@.len() ==> r@[a] < r@[b],
            forall|a: int| 0 <= a < r@.len() ==> r@[a] < 8 * i,
            forall|p: u8| r@.contains(p) <==> (p < 8 * i && bitmap_has(bits@, p)),
        decreases 32 - i,
    {
        let byte: u8 = #[verifier::truncate] (bits[i] as u8);
        assert(byte == bits@[i as int] as u8);
        let mut j: usize = 0;
        while j < 8
            invariant
                i < 32,
                j <= 8,
                byte == bits@[i as int] as u8,
                forall|a: int, b: int| 0 <= a < b < r@.len() ==> r@[a] < r@[b],
                forall|a: int| 0 <= a < r@.len() ==> r@[a] < 8 * i + j,
                forall|p: u8| r@.contains(p) <==> (p < 8 * i + j && bitmap_has(bits@, p)),
            decreases 8 - j,
        {
            let p: u8 = (8 * i + j) as u8;
            let ghost r0 = r@;
            if (byte >> (j as u8)) & 1 == 1 {
                r.push(p);
                proof {
                    assert(bit_of(byte, j as u8));
                    assert(p as int / 8 == i && p as int % 8 == j) by (nonlinear_arith)
                        requires i < 32 && j < 8 && p == 8 * i + j;
                    assert(bitmap_has(bits@, p));
                }
            }
            proof {
                assert forall|q: u8| r@.contains(q) implies (q < 8 * i + j + 1 && bitmap_has(
                    bits@,
                    q,
                )) by {
                    lemma_push_contains(r0, p, q);
                }
                assert forall|q: u8| q < 8 * i + j + 1 && bitmap_has(bits@, q) implies r@.contains(
                    q,
                ) by {
                    lemma_push_contains(r0, p, q);
                    if q == 8 * i + j {
                        assert(q as int / 8 == i && q as int % 8 == j) by (nonlinear_arith)
                            requires i < 32 && j < 8 && q == 8 * i + j;
                        assert(bit_of(byte, j as u8) == bitmap_has(bits@, q));
                    }
                }
            }
            j += 1;
        }
        i += 1;
    }
    proof {
        assert forall|p: u8| r@.contains(p) <==> bitmap_has(bits@, p) by {
            assert(p < 256);
        }
    }
    r
}

/// The keysym rows of every keycode the server reports: `each` symbols per
/// keycode, rows for keycodes `last - n + 1 ..= last` in ascending order.
pub struct SymsOfCodes {
    pub syms: Vec<u64>,
    pub each: usize,
    pub last: u8,
}

impl SymsOfCodes {
    /// Number of keycode rows.
    pub open spec fn n_codes(self) -> int {
        self.syms@.len() as int / self.each as int
    }

    pub open spec fn wf(self) -> bool {
        &&& self.each >= 1
        &&& self.syms@.len() == self.n_codes() * self.each
        &&& 1 <= self.n_codes() <= self.last as int + 1
    }

    /// Keycode of row `i`.
    pub open spec fn code_of(self, i: int) -> int {
        self.last - self.n_codes() + 1 + i
    }

    /// First keysym of row `i`; zero means the keycode is unbound.
    pub open spec fn row_first(self, i: int) -> u64 {
        self.syms@[i * self.each]
    }

    /// Second keysym of row `i` (the shifted position), zero when absent.
    pub open spec fn row_second(self, i: int) -> u64 {
        if self.each >= 2 {
            self.syms@[i * self.each + 1]
        } else {
            0
        }
    }

    /// Whether row `i` binds keysym `s` and in which position.
    pub open spec fn row_hit(self, i: int, s: u32) -> Option<(u8, bool)> {
        if self.row_first(i) != 0 && self.row_first(i) as u32 == s {
            Some((self.code_of(i) as u8, false))
        } else if self.row_first(i) != 0 && self.row_second(i) != 0 && self.row_second(i) as u32
            == s {
            Some((self.code_of(i) as u8, true))
        } else {
            None
        }
    }

    /// First row at or after `i` whose leading keysym is `s`.
    pub open spec fn find_first(self, s: u32, i: int) -> Option<int>
        decreases self.n_codes() - i,
    {
        if i < 0 || i >= self.n_codes() {
            None
        } else if self.row_first(i) != 0 && self.row_first(i) as u32 == s {
            Some(i)
        } else {
            self.find_first(s, i + 1)
        }
    }

    /// First row at or after `i` that binds `s` in either position.
    pub open spec fn find_hit(self, s: u32, i: int) -> Option<(u8, bool)>
        decreases self.n_codes() - i,
    {
        if i < 0 || i >= self.n_codes() {
            None
        } else if self.row_hit(i, s) is Some {
            self.row_hit(i, s)
        } else {
            self.find_hit(s, i + 1)
        }
    }

    /// What `sym_key_map` binds `s` to.
    pub open spec fn spec_sym_key(self, s: u32) -> Option<u8> {
        match self.find_first(s, 0) {
            Some(r) => Some(self.code_of(r) as u8),
            None => None,
        }
    }

    /// A successful search lands between its start and the row count.
    proof fn lemma_find_bounds(self, s: u32, j: int)
        ensures
            self.find_first(s, j) is Some ==> 0 <= j <= self.find_first(s, j)->0
                < self.n_codes(),
        decreases self.n_codes() - j,
    {
        if 0 <= j < self.n_codes() && !(self.row_first(j) != 0 && self.row_first(j) as u32 == s) {
            self.lemma_find_bounds(s, j + 1);
        }
    }

    /// Everything `find_first` promises about a row `i` when the search
    /// started at `j <= i`.
    proof fn lemma_find_from(self, s: u32, j: int, i: int)
        requires
            0 <= j <= i < self.n_codes(),
        ensures
            self.find_first(s, j) == Some(i) ==> (self.row_first(i) != 0 && self.row_first(i)
                as u32 == s),
            self.find_first(s, j) is None ==> !(self.row_first(i) != 0 && self.row_first(i) as u32
                == s),
            (self.find_first(s, j) matches Some(r) && r > i) ==> !(self.row_first(i) != 0
                && self.row_first(i) as u32 == s),
            (self.find_first(s, j) matches Some(r)) ==> j <= self.find_first(s, j)->0
                < self.n_codes(),
        decreases i - j,
    {
        self.lemma_find_bounds(s, j + 1);
        if j < i {
            self.lemma_find_from(s, j + 1, i);
        }
    }

    /// Row count and lowest keycode, as machine integers.
    fn dims(&self) -> (r: (usize, usize))
        requires
            self.wf(),
        ensures
            r.0 == self.n_codes(),
            r.1 == self.code_of(0),
            self.syms@.len() <= usize::MAX,
    {
        let n = self.syms.len() / self.each;
        proof {
            assert(n == self.n_codes());
        }
        let first: usize = self.last as usize + 1 - n;
        (n, first)
    }

    /// Builds the keysym-to-keycode table: for each keysym that leads some
    /// row, the keycode of the first such row.
    pub fn sym_key_map(&self) -> (r: Table<u8>)
        requires
            self.wf(),
        ensures
            r.wf(),
            forall|s: u32| #[trigger] assoc_get(r.pairs@, s) == self.spec_sym_key(s),
    {
        let (n, first) = self.dims();
        let mut m: Table<u8> = Table::new();
        let mut i: usize = 0;
        while i < n
            invariant
                self.wf(),
                i <= n,
                n == self.n_codes(),
                first == self.code_of(0),
                self.syms@.len() <= usize::MAX,
                m.wf(),
                forall|s: u32| #[trigger] assoc_get(m.pairs@, s) == match self.find_first(s, 0) {
                    Some(r) => if 0 <= r < i {
                        Some(self.code_of(r) as u8)
                    } else {
                        None
                    },
                    None => None::<u8>,
                },
            decreases n - i,
        {
            proof {
                assert(i * self.each < self.syms@.len() && i * self.each >= 0) by (nonlinear_arith)
                    requires
                        0 <= i < n,
                        self.each >= 1,
                        n * self.each == self.syms@.len(),
                ;
            }
            let f = self.syms[i * self.each];
            let ghost m0 = m.pairs@;
            if f != 0 {
                let s: u32 = #[verifier::truncate] (f as u32);
                let code: u8 = (first + i) as u8;
                m.insert_if_absent(s, code);
                proof {
                    assert(self.row_first(i as int) == f);
                    assert forall|q: u32| #[trigger] assoc_get(m.pairs@, q) == match self
                        .find_first(q, 0) {
                        Some(r) => if 0 <= r < i + 1 {
                            Some(self.code_of(r) as u8)
                        } else {
                            None
                        },
                        None => None::<u8>,
                    } by {
                        self.lemma_find_bounds(q, 0);
                        if q == s && assoc_get(m0, q) is None {
                            assert forall|t: int|
                                0 <= t < i implies !(self.row_first(t) != 0 && self.row_first(t)
                                as u32 == q) by {
                                self.lemma_find_from(q, 0, t);
                            }
                            self.lemma_find_none_step(q, 0, i as int);
                        } else {
                            if self.find_first(q, 0) is Some {
                                let r = self.find_first(q, 0)->0;
                                self.lemma_find_from(q, 0, r);
                                if r == i {
                                    assert(self.row_first(i as int) as u32 == q);
                                }
                            }
                        }
                    }
                }
            } else {
                proof {
                    assert(self.row_first(i as int) == 0);
                    assert forall|q: u32| #[trigger] assoc_get(m.pairs@, q) == match self
                        .find_first(q, 0) {
                        Some(r) => if 0 <= r < i + 1 {
                            Some(self.code_of(r) as u8)
                        } else {
                            None
                        },
                        None => None::<u8>,
                    } by {
                        self.lemma_find_bounds(q, 0);
                        if self.find_first(q, 0) is Some {
                            let r = self.find_first(q, 0)->0;
                            self.lemma_find_from(q, 0, r);
                            if r == i {
                                assert(self.row_first(i as int) != 0);
                            }
                        }
                    }
                }
            }
            i += 1;
        }
        proof {
            assert forall|s: u32| #[trigger] assoc_get(m.pairs@, s) == self.spec_sym_key(s) by {
                self.lemma_find_bounds(s, 0);
            }
        }
        m
    }

    /// When no row before `i` leads with `s` but row `i` does, the search
    /// finds row `i`.
    proof fn lemma_find_none_step(self, s: u32, j: int, i: int)
        requires
            0 <= j <= i < self.n_codes(),
            self.row_first(i) != 0 && self.row_first(i) as u32 == s,
            forall|t: int|
                0 <= t < i ==> !(self.row_first(t) != 0 && self.row_first(t) as u32 == s),
        ensures
            self.find_first(s, j) == Some(i),
        decreases i - j,
    {
        if j < i {
            self.lemma_find_none_step(s, j + 1, i);
        }
    }

    /// What `sym_key_code` binds `s` to.
    pub open spec fn spec_sym_key_code(self, s: u32) -> Option<(u8, bool)> {
        self.find_hit(s, 0)
    }

    proof fn lemma_find_hit_from(self, s: u32, j: int, i: int)
        requires
            0 <= j <= i < self.n_codes(),
        ensures
            self.find_hit(s, j) is None ==> self.row_hit(i, s) is None,
            (forall|t: int| j <= t < i ==> self.row_hit(t, s) is None) && self.row_hit(i, s)
                is Some ==> self.find_hit(s, j) == self.row_hit(i, s),
            (forall|t: int| j <= t <= i ==> self.row_hit(t, s) is None) ==> self.find_hit(s, j)
                == self.find_hit(s, i + 1),
        decreases i - j,
    {
        if j < i {
            self.lemma_find_hit_from(s, j + 1, i);
        }
    }

    /// Builds the keysym-to-(keycode, shifted) table from the first two
    /// positions of each row; the earliest binding of a keysym wins.
    pub fn sym_key_code(&self) -> (r: Table<(u8, bool)>)
        requires
            self.wf(),
        ensures
            r.wf(),
            forall|s: u32| #[trigger] assoc_get(r.pairs@, s) == self.spec_sym_key_code(s),
    {
        let (n, first) = self.dims();
        let mut m: Table<(u8, bool)> = Table::new();
        let mut i: usize = 0;
        while i < n
            invariant
                self.wf(),
                i <= n,
                n == self.n_codes(),
                first == self.code_of(0),
                self.syms@.len() <= usize::MAX,
                m.wf(),
                forall|s: u32| #[trigger] assoc_get(m.pairs@, s) == match self.find_hit_bounded(
                    s,
                    i as int,
                ) {
                    Some(h) => Some(h),
                    None => None::<(u8, bool)>,
                },
            decreases n - i,
        {
            proof {
                assert(i * self.each + self.each <= self.syms@.len() && i * self.each >= 0)
                    by (nonlinear_arith)
                    requires
                        0 <= i < n,
                        self.each >= 1,
                        n * self.each == self.syms@.len(),
                ;
            }
            let f = self.syms[i * self.each];
            let code: u8 = (first + i) as u8;
            let ghost m0 = m.pairs@;
            proof {
                assert(self.row_first(i as int) == f);
                assert(code == self.code_of(i as int) as u8);
            }
            if f != 0 {
                let s: u32 = #[verifier::truncate] (f as u32);
                m.insert_if_absent(s, (code, false));
                let ghost m1 = m.pairs@;
                let mut has2 = false;
                let mut s2: u32 = 0;
                if self.each >= 2 {
                    let g = self.syms[i * self.each + 1];
                    proof {
                        assert(self.row_second(i as int) == g);
                    }
                    if g != 0 {
                        s2 = #[verifier::truncate] (g as u32);
                        has2 = true;
                        m.insert_if_absent(s2, (code, true));
                    }
                }
                proof {
                    assert forall|q: u32| #[trigger] assoc_get(m.pairs@, q) == match self
                        .find_hit_bounded(q, i + 1) {
                        Some(h) => Some(h),
                        None => None::<(u8, bool)>,
                    } by {
                        self.lemma_hit_bounded_step(q, i as int);
                        if q == s {
                            assert(self.row_hit(i as int, q) == Some((code, false)));
                        } else if has2 && q == s2 {
                            assert(assoc_get(m1, q) == assoc_get(m0, q));
                            assert(self.row_hit(i as int, q) == Some((code, true)));
                        } else {
                            assert(assoc_get(m.pairs@, q) == assoc_get(m0, q));
                            assert(self.row_hit(i as int, q) is None);
                        }
                    }
                }
            } else {
                proof {
                    assert forall|q: u32| #[trigger] assoc_get(m.pairs@, q) == match self
                        .find_hit_bounded(q, i + 1) {
                        Some(h) => Some(h),
                        None => None::<(u8, bool)>,
                    } by {
                        self.lemma_hit_bounded_step(q, i as int);
                        assert(self.row_hit(i as int, q) is None);
                    }
                }
            }
            i += 1;
        }
        proof {
            assert forall|s: u32| #[trigger] assoc_get(m.pairs@, s) == self.spec_sym_key_code(
                s,
            ) by {
                self.lemma_hit_bounded_full(s, 0);
            }
        }
        m
    }

    /// First hit among rows `0 .. i`.
    pub open spec fn find_hit_bounded(self, s: u32, i: int) -> Option<(u8, bool)>
        decreases i,
    {
        if i <= 0 {
            None
        } else if self.find_hit_bounded(s, i - 1) is Some {
            self.find_hit_bounded(s, i - 1)
        } else {
            self.row_hit(i - 1, s)
        }
    }

    proof fn lemma_hit_bounded_step(self, s: u32, i: int)
        requires
            0 <= i,
        ensures
            self.find_hit_bounded(s, i + 1) == if self.find_hit_bounded(s, i) is Some {
                self.find_hit_bounded(s, i)
            } else {
                self.row_hit(i, s)
            },
    {
    }

    /// The bounded search over all rows agrees with `find_hit`.
    proof fn lemma_hit_bounded_full(self, s: u32, j: int)
        requires
            0 <= j <= self.n_codes(),
            forall|t: int| 0 <= t < j ==> self.row_hit(t, s) is None,
            self.find_hit_bounded(s, j) is None,
        ensures
            self.find_hit_bounded(s, self.n_codes()) == self.find_hit(s, j),
        decreases self.n_codes() - j,
    {
        if j < self.n_codes() {
            if self.row_hit(j, s) is Some {
                self.lemma_hit_bounded_stable(s, j + 1, self.n_codes());
            } else {
                self.lemma_hit_bounded_full(s, j + 1);
            }
        }
    }

    /// Once the bounded search has a hit it keeps it.
    proof fn lemma_hit_bounded_stable(self, s: u32, j: int, k: int)
        requires
            0 <= j <= k,
            self.find_hit_bounded(s, j) is Some,
        ensures
            self.find_hit_bounded(s, k) == self.find_hit_bounded(s, j),
        decreases k - j,
    {
        if j < k {
            self.lemma_hit_bounded_stable(s, j + 1, k);
        }
    }

    /// The codes whose row is empty, one run from the highest keycode down.
    pub open spec fn una_from(self, r: int) -> Seq<u8>
        decreases r + 1,
    {
        if r < 0 {
            Seq::empty()
        } else if self.row_first(r) == 0 {
            seq![self.code_of(r) as u8] + self.una_from(r - 1)
        } else {
            self.una_from(r - 1)
        }
    }

    /// Keycodes with no symbol bound, highest first: the pool of spare
    /// keycodes the allocator may rewrite.
    pub fn unassigned(&self) -> (r: Vec<u8>)
        requires
            self.wf(),
        ensures
            r@ == self.una_from(self.n_codes() - 1),
    {
        let (n, first) = self.dims();
        let mut r: Vec<u8> = Vec::new();
        let mut k: usize = 0;
        while k < n
            invariant
                self.wf(),
                k <= n,
                n == self.n_codes(),
                first == self.code_of(0),
                self.syms@.len() <= usize::MAX,
                self.una_from(n - 1) =~= r@ + self.una_from(n - 1 - k),
            decreases n - k,
        {
            let row = n - 1 - k;
            proof {
                assert(row * self.each < self.syms@.len() && row * self.each >= 0)
                    by (nonlinear_arith)
                    requires
                        0 <= row < n,
                        self.each >= 1,
                        n * self.each == self.syms@.len(),
                ;
            }
            let ghost r0 = r@;
            if self.syms[row * self.each] == 0 {
                r.push((first + row) as u8);
                proof {
                    assert(self.una_from(row as int) =~= seq![self.code_of(row as int) as u8]
                        + self.una_from(row as int - 1));
                    assert(self.una_from(n - 1) =~= r@ + self.una_from(n - 2 - k));
                }
            } else {
                proof {
                    assert(self.una_from(row as int) == self.una_from(row as int - 1));
                }
            }
            k += 1;
        }
        proof {
            assert(self.una_from(-1) =~= Seq::<u8>::empty());
            assert(r@ =~= r@ + self.una_from(-1));
        }
        r
    }

    /// The code `fallback_unuse` settles on, scanning from row `r` down.
    pub open spec fn fallback_from(self, r: int) -> u8
        decreases r + 1,
    {
        if r < 0 {
            252
        } else if self.row_first(r) == 0 {
            self.code_of(r) as u8
        } else if 0x0100_0000 < self.row_first(r) < 0x1000_0000 {
            self.code_of(r) as u8
        } else {
            self.fallback_from(r - 1)
        }
    }

    /// Last-resort spare keycode: the highest keycode that is unbound or
    /// carries a character-range keysym, or 252 when none is.
    pub fn fallback_unuse(&self) -> (r: u8)
        requires
            self.wf(),
        ensures
            r == self.fallback_from(self.n_codes() - 1),
    {
        let (n, first) = self.dims();
        let mut k: usize = 0;
        while k < n
            invariant
                self.wf(),
                k <= n,
                n == self.n_codes(),
                first == self.code_of(0),
                self.syms@.len() <= usize::MAX,
                self.fallback_from(n - 1) == self.fallback_from(n - 1 - k),
            decreases n - k,
        {
            let row = n - 1 - k;
            proof {
                assert(row * self.each < self.syms@.len() && row * self.each >= 0)
                    by (nonlinear_arith)
                    requires
                        0 <= row < n,
                        self.each >= 1,
                        n * self.each == self.syms@.len(),
                ;
            }
            let s = self.syms[row * self.each];
            if s == 0 {
                return (first + row) as u8;
            }
            if s > 0x0100_0000 && s < 0x1000_0000 {
                return (first + row) as u8;
            }
            k += 1;
        }
        252
    }
}

/// The modifier keymap: eight slots (shift, lock, control, mod1 to mod5),
/// each of `max_key_per_mod` keycodes, flattened in slot order.
pub struct ModifierCodes {
    pub keycodes: Vec<u8>,
}

/// Longest prefix of a code sequence before the first zero entry.
pub open spec fn nz_prefix(s: Seq<u8>) -> Seq<u8>
    decreases s.len(),
{
    if s.len() == 0 || s[0] == 0 {
        Seq::empty()
    } else {
        seq![s[0]] + nz_prefix(s.drop_first())
    }
}

impl ModifierCodes {
    pub open spec fn kpm(self) -> int {
        self.keycodes@.len() as int / 8
    }

    pub open spec fn wf(self) -> bool {
        &&& self.keycodes@.len() == 8 * self.kpm()
        &&& self.kpm() >= 1
    }

    /// How many keycodes each modifier slot can hold.
    pub fn max_key_per_mod(&self) -> (r: usize)
        ensures
            r == self.keycodes@.len() / 8,
    {
        self.keycodes.len() / 8
    }

    /// The keycode of the leftmost shift key.
    pub fn shift(&self) -> (r: u8)
        requires
            self.keycodes@.len() >= 1,
        ensures
            r == self.keycodes@[0],
    {
        self.keycodes[0]
    }

    /// The keycodes of slot `index`, cut at the first empty entry.
    pub open spec fn slot_spec(self, index: int) -> Seq<u8> {
        nz_prefix(self.keycodes@.subrange(self.kpm() * index, self.kpm() * index + self.kpm()))
    }

    /// The keycodes bound to modifier slot `index`.
    pub fn code_slot(&self, index: usize) -> (r: Vec<u8>)
        requires
            self.wf(),
            index < 8,
        ensures
            r@ == self.slot_spec(index as int),
    {
        let kpm = self.keycodes.len() / 8;
        proof {
            assert(kpm * index + kpm <= self.keycodes@.len() && kpm * index >= 0)
                by (nonlinear_arith)
                requires
                    index < 8,
                    self.keycodes@.len() == 8 * kpm,
            ;
        }
        let beg = kpm * index;
        let ghost seg = self.keycodes@.subrange(beg as int, beg as int + kpm);
        let mut r: Vec<u8> = Vec::new();
        let mut t: usize = 0;
        while t < kpm && self.keycodes[beg + t] != 0
            invariant
                t <= kpm,
                beg + kpm <= self.keycodes@.len() <= usize::MAX,
                seg == self.keycodes@.subrange(beg as int, beg as int + kpm),
                forall|u: int| 0 <= u < t ==> seg[u] != 0,
                r@ =~= seg.take(t as int),
            decreases kpm - t,
        {
            r.push(self.keycodes[beg + t]);
            proof {
                assert(seg.take(t + 1) =~= seg.take(t as int).push(seg[t as int]));
            }
            t += 1;
        }
        proof {
            lemma_nz_prefix_cut(seg, t as int);
        }
        r
    }

    /// One flat pass over the modifier map: the slots in order, each cut at
    /// its first empty entry, each reading at most eight codes.
    pub open spec fn iter_upto(self, i: int) -> Seq<u8>
        decreases i,
    {
        if i <= 0 {
            Seq::empty()
        } else {
            self.iter_upto(i - 1) + self.seg8_spec(i - 1)
        }
    }

    /// Slot `i` as the flat pass reads it: up to eight codes from the
    /// slot's start, cut at the first empty entry.
    pub open spec fn seg8_spec(self, i: int) -> Seq<u8> {
        let beg = self.kpm() * i;
        let end = if beg + 8 <= self.keycodes@.len() {
            beg + 8
        } else {
            self.keycodes@.len() as int
        };
        nz_prefix(self.keycodes@.subrange(beg, end))
    }

    /// All modifier keycodes in slot order.
    pub fn iter(&self) -> (r: Vec<u8>)
        requires
            self.wf(),
        ensures
            r@ == self.iter_upto(8),
    {
        let kpm = self.keycodes.len() / 8;
        let len = self.keycodes.len();
        let mut r: Vec<u8> = Vec::new();
        let mut i: usize = 0;
        while i < 8
            invariant
                self.wf(),
                i <= 8,
                kpm == self.kpm(),
                len == self.keycodes@.len(),
                r@ =~= self.iter_upto(i as int),
            decreases 8 - i,
        {
            proof {
                assert(kpm * i + kpm <= self.keycodes@.len() && kpm * i >= 0)
                    by (nonlinear_arith)
                    requires
                        i < 8,
                        self.keycodes@.len() == 8 * kpm,
                ;
            }
            let beg = kpm * i;
            let end = if beg + 8 <= len {
                beg + 8
            } else {
                len
            };
            let ghost seg = self.keycodes@.subrange(beg as int, end as int);
            let ghost rpre = r@;
            let mut t: usize = 0;
            while t < end - beg && self.keycodes[beg + t] != 0
                invariant
                    t <= end - beg,
                    beg <= end,
                    end <= self.keycodes@.len() <= usize::MAX,
                    seg == self.keycodes@.subrange(beg as int, end as int),
                    forall|u: int| 0 <= u < t ==> seg[u] != 0,
                    r@ =~= rpre + seg.take(t as int),
                decreases end - beg - t,
            {
                r.push(self.keycodes[beg + t]);
                proof {
                    assert(seg.take(t + 1) =~= seg.take(t as int).push(seg[t as int]));
                    assert(rpre + seg.take(t + 1) =~= (rpre + seg.take(t as int)).push(
                        seg[t as int],
                    ));
                }
                t += 1;
            }
            proof {
                lemma_nz_prefix_cut(seg, t as int);
                assert(self.seg8_spec(i as int) == nz_prefix(seg));
                assert(r@ =~= self.iter_upto(i + 1));
            }
            i += 1;
        }
        r
    }

    /// The modifier mask of keycode `q`, searching the slots from `i - 1`
    /// down: the highest slot that lists `q` wins, as repeated insertion
    /// in ascending slot order leaves it.
    pub open spec fn cm_below(self, q: u8, i: int) -> Option<u32>
        decreases i,
    {
        if i <= 0 {
            None
        } else if self.slot_spec(i - 1).contains(q) {
            Some(1u32 << (i - 1) as u32)
        } else {
            self.cm_below(q, i - 1)
        }
    }

    /// Maps each modifier keycode to the mask bit of its slot.
    pub fn code_map(&self) -> (r: Table<u32>)
        requires
            self.wf(),
        ensures
            r.wf(),
            forall|k: u32| #[trigger] assoc_get(r.pairs@, k) == if k < 256 {
                self.cm_below(k as u8, 8)
            } else {
                None::<u32>
            },
    {
        let mut m: Table<u32> = Table::new();
        let mut i: usize = 0;
        while i < 8
            invariant
                self.wf(),
                i <= 8,
                m.wf(),
                forall|k: u32| #[trigger] assoc_get(m.pairs@, k) == if k < 256 {
                    self.cm_below(k as u8, i as int)
                } else {
                    None::<u32>
                },
            decreases 8 - i,
        {
            let modbit: u32 = 1u32 << (i as u32);
            let slot = self.code_slot(i);
            let ghost pre = m.pairs@;
            let mut t: usize = 0;
            while t < slot.len()
                invariant
                    i < 8,
                    t <= slot@.len(),
                    modbit == 1u32 << (i as u32),
                    slot@ == self.slot_spec(i as int),
                    m.wf(),
                    forall|k: u32| #[trigger] assoc_get(m.pairs@, k) == if k < 256 && slot@.take(
                        t as int,
                    ).contains(k as u8) {
                        Some(modbit)
                    } else {
                        assoc_get(pre, k)
                    },
                decreases slot@.len() - t,
            {
                let c = slot[t];
                let ghost m0 = m.pairs@;
                m.insert(c as u32, modbit);
                proof {
                    assert(slot@.take(t + 1) =~= slot@.take(t as int).push(slot@[t as int]));
                    assert forall|k: u32| #[trigger] assoc_get(m.pairs@, k) == if k < 256
                        && slot@.take(t + 1).contains(k as u8) {
                        Some(modbit)
                    } else {
                        assoc_get(pre, k)
                    } by {
                        lemma_push_contains(slot@.take(t as int), slot@[t as int], k as u8);
                        if k == c as u32 {
                            assert(slot@.take(t + 1).contains(k as u8));
                        }
                    }
                }
                t += 1;
            }
            proof {
                assert(slot@.take(slot@.len() as int) =~= slot@);
                assert forall|k: u32| #[trigger] assoc_get(m.pairs@, k) == if k < 256 {
                    self.cm_below(k as u8, i + 1)
                } else {
                    None::<u32>
                } by {
                    if k < 256 {
                        assert(self.cm_below(k as u8, i + 1) == if self.slot_spec(
                            i as int,
                        ).contains(k as u8) {
                            Some(1u32 << (i as u32))
                        } else {
                            self.cm_below(k as u8, i as int)
                        });
                    }
                }
            }
            i += 1;
        }
        m
    }
}

/// A scan that stops at the first zero entry returns exactly the nonzero
/// prefix.
pub proof fn lemma_nz_prefix_cut(s: Seq<u8>, t: int)
    requires
        0 <= t <= s.len(),
        forall|u: int| 0 <= u < t ==> s[u] != 0,
        t == s.len() || s[t] == 0,
    ensures
        nz_prefix(s) =~= s.take(t),
    decreases t,
{
    if s.len() == 0 {
    } else if s[0] == 0 {
        assert(t == 0);
    } else {
        assert(t >= 1);
        lemma_nz_prefix_cut(s.drop_first(), t - 1);
        assert(s.take(t) =~= seq![s[0]] + s.drop_first().take(t - 1));
    }
}

} // verus!
