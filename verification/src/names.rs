//! Resolving symbolic key names to keysyms.
//!
//! A name resolves through three steps: a one-character fast path for
//! ASCII alphanumerics, the display library's name lookup (performed by
//! the front end and handed in as a table), and a built-in alias table
//! for common modifier and special-key spellings.

use vstd::prelude::*;

use crate::table::assoc_get_name;

verus! {

/// Characters a key name may consist of.
pub open spec fn is_name_char(c: char) -> bool {
    let u = c as u32;
    (48 <= u <= 57) || (65 <= u <= 90) || (97 <= u <= 122) || u == 95
}

/// Whether `c` is an ASCII letter or digit.
pub open spec fn is_ascii_alnum(c: char) -> bool {
    let u = c as u32;
    (48 <= u <= 57) || (65 <= u <= 90) || (97 <= u <= 122)
}

/// ASCII lowercasing on code points.
pub open spec fn lower_u32(u: u32) -> u32 {
    if 65 <= u <= 90 {
        (u + 32) as u32
    } else {
        u
    }
}

/// Case-insensitive match of a name against a lowercase word.
pub open spec fn name_matches(s: Seq<char>, lit: Seq<char>) -> bool {
    s.len() == lit.len() && forall|j: int|
        0 <= j < s.len() ==> lower_u32(#[trigger] s[j] as u32) == lit[j] as u32
}

/// The built-in alias for a name, if it has one.
pub open spec fn spec_alias(s: Seq<char>) -> Option<u32> {
    if name_matches(s, "ctrl"@) {
        Some(0xffe3u32)
    } else if name_matches(s, "control"@) {
        Some(0xffe3u32)
    } else if name_matches(s, "shift"@) {
        Some(0xffe1u32)
    } else if name_matches(s, "alt"@) {
        Some(0xffe9u32)
    } else if name_matches(s, "meta"@) {
        Some(0xffe7u32)
    } else if name_matches(s, "super"@) {
        Some(0xffebu32)
    } else if name_matches(s, "win"@) {
        Some(0xffebu32)
    } else if name_matches(s, "hyper"@) {
        Some(0xffedu32)
    } else if name_matches(s, "enter"@) {
        Some(0xff0du32)
    } else if name_matches(s, "return"@) {
        Some(0xff0du32)
    } else if name_matches(s, "esc"@) {
        Some(0xff1bu32)
    } else if name_matches(s, "escape"@) {
        Some(0xff1bu32)
    } else if name_matches(s, "tab"@) {
        Some(0xff09u32)
    } else if name_matches(s, "space"@) {
        Some(0x20u32)
    } else if name_matches(s, "backspace"@) {
        Some(0xff08u32)
    } else if name_matches(s, "del"@) {
        Some(0xffffu32)
    } else if name_matches(s, "delete"@) {
        Some(0xffffu32)
    } else if name_matches(s, "insert"@) {
        Some(0xff63u32)
    } else if name_matches(s, "home"@) {
        Some(0xff50u32)
    } else if name_matches(s, "end"@) {
        Some(0xff57u32)
    } else if name_matches(s, "pageup"@) {
        Some(0xff55u32)
    } else if name_matches(s, "pagedown"@) {
        Some(0xff56u32)
    } else if name_matches(s, "up"@) {
        Some(0xff52u32)
    } else if name_matches(s, "down"@) {
        Some(0xff54u32)
    } else if name_matches(s, "left"@) {
        Some(0xff51u32)
    } else if name_matches(s, "right"@) {
        Some(0xff53u32)
    } else if name_matches(s, "capslock"@) {
        Some(0xffe5u32)
    } else if name_matches(s, "menu"@) {
        Some(0xff67u32)
    } else {
        None
    }
}

/// Exec mirror of `is_name_char`.
pub fn is_name_char_x(c: char) -> (r: bool)
    ensures
        r == is_name_char(c),
{
    let u = c as u32;
    (48 <= u && u <= 57) || (65 <= u && u <= 90) || (97 <= u && u <= 122) || u == 95
}

/// Case-insensitive comparison against a known-lowercase word.
fn eq_ci(name: &Vec<char>, lit: &str) -> (r: bool)
    ensures
        r == name_matches(name@, lit@),
{
    let ll = lit.unicode_len();
    if name.len() != ll {
        return false;
    }
    let mut i: usize = 0;
    while i < ll
        invariant
            i <= ll,
            ll == lit@.len(),
            name@.len() == ll,
            forall|j: int| 0 <= j < i ==> lower_u32(#[trigger] name@[j] as u32) == lit@[j] as u32,
        decreases ll - i,
    {
        let c = name[i] as u32;
        let lc = if 65 <= c && c <= 90 {
            c + 32
        } else {
            c
        };
        let litc = lit.get_char(i) as u32;
        if lc != litc {
            assert(lower_u32(name@[i as int] as u32) != lit@[i as int] as u32);
            return false;
        }
        i += 1;
    }
    true
}

/// The one-character fast path: an ASCII letter or digit names its own
/// (lowercased) code point as keysym.
pub fn fast_path_sym(name: &Vec<char>) -> (r: Option<u32>)
    ensures
        r == if name@.len() == 1 && is_ascii_alnum(name@[0]) {
            Some(lower_u32(name@[0] as u32))
        } else {
            None::<u32>
        },
{
    if name.len() == 1 {
        let u = name[0] as u32;
        if (48 <= u && u <= 57) || (97 <= u && u <= 122) {
            return Some(u);
        }
        if 65 <= u && u <= 90 {
            return Some(u + 32);
        }
    }
    None
}

/// The built-in alias table for modifier and special-key names, matched
/// without regard to case.
pub fn alias_sym(name: &Vec<char>) -> (r: Option<u32>)
    ensures
        r == spec_alias(name@),
{
    if eq_ci(name, "ctrl") {
        Some(0xffe3)
    } else if eq_ci(name, "control") {
        Some(0xffe3)
    } else if eq_ci(name, "shift") {
        Some(0xffe1)
    } else if eq_ci(name, "alt") {
        Some(0xffe9)
    } else if eq_ci(name, "meta") {
        Some(0xffe7)
    } else if eq_ci(name, "super") {
        Some(0xffeb)
    } else if eq_ci(name, "win") {
        Some(0xffeb)
    } else if eq_ci(name, "hyper") {
        Some(0xffed)
    } else if eq_ci(name, "enter") {
        Some(0xff0d)
    } else if eq_ci(name, "return") {
        Some(0xff0d)
    } else if eq_ci(name, "esc") {
        Some(0xff1b)
    } else if eq_ci(name, "escape") {
        Some(0xff1b)
    } else if eq_ci(name, "tab") {
        Some(0xff09)
    } else if eq_ci(name, "space") {
        Some(0x20)
    } else if eq_ci(name, "backspace") {
        Some(0xff08)
    } else if eq_ci(name, "del") {
        Some(0xffff)
    } else if eq_ci(name, "delete") {
        Some(0xffff)
    } else if eq_ci(name, "insert") {
        Some(0xff63)
    } else if eq_ci(name, "home") {
        Some(0xff50)
    } else if eq_ci(name, "end") {
        Some(0xff57)
    } else if eq_ci(name, "pageup") {
        Some(0xff55)
    } else if eq_ci(name, "pagedown") {
        Some(0xff56)
    } else if eq_ci(name, "up") {
        Some(0xff52)
    } else if eq_ci(name, "down") {
        Some(0xff54)
    } else if eq_ci(name, "left") {
        Some(0xff51)
    } else if eq_ci(name, "right") {
        Some(0xff53)
    } else if eq_ci(name, "capslock") {
        Some(0xffe5)
    } else if eq_ci(name, "menu") {
        Some(0xff67)
    } else {
        None
    }
}

/// How a key name resolves: fast path first, then the display library's
/// answer, then the alias table.
pub open spec fn spec_resolve(s: Seq<char>, xnames: Seq<(Vec<char>, u32)>) -> Option<u32> {
    if s.len() == 1 && is_ascii_alnum(s[0]) {
        Some(lower_u32(s[0] as u32))
    } else if assoc_get_name(xnames, s) is Some {
        assoc_get_name(xnames, s)
    } else {
        spec_alias(s)
    }
}

/// Resolves a key name to a keysym.  `xnames` holds the display library's
/// answers for the names of the current line, gathered by the front end.
pub fn resolve_name(name: &Vec<char>, xnames: &NameMap) -> (r: Option<u32>)
    ensures
        r == spec_resolve(name@, xnames.pairs@),
{
    if let Some(s) = fast_path_sym(name) {
        return Some(s);
    }
    if let Some(s) = xnames.get(name) {
        return Some(s);
    }
    alias_sym(name)
}

/// A copy of a character vector.
pub fn copy_chars(t: &Vec<char>) -> (r: Vec<char>)
    ensures
        r@ == t@,
{
    let mut r: Vec<char> = Vec::new();
    let mut i: usize = 0;
    while i < t.len()
        invariant
            i <= t@.len(),
            r@ =~= t@.take(i as int),
        decreases t@.len() - i,
    {
        r.push(t[i]);
        i += 1;
    }
    assert(r@ =~= t@);
    r
}

/// Resolves every name of a list, or reports the first that fails.
pub fn resolve_names(names: &Vec<Vec<char>>, xnames: &NameMap) -> (r: Result<Vec<u32>, usize>)
    ensures
        match r {
            Ok(v) => v@.len() == names@.len() && forall|i: int|
                0 <= i < names@.len() ==> spec_resolve((#[trigger] names@[i])@, xnames.pairs@)
                    == Some(v@[i]),
            Err(i) => i < names@.len() && spec_resolve(names@[i as int]@, xnames.pairs@) is None
                && forall|j: int|
                0 <= j < i ==> spec_resolve((#[trigger] names@[j])@, xnames.pairs@) is Some,
        },
{
    let mut v: Vec<u32> = Vec::new();
    let mut i: usize = 0;
    while i < names.len()
        invariant
            i <= names@.len(),
            v@.len() == i,
            forall|j: int|
                0 <= j < i ==> spec_resolve((#[trigger] names@[j])@, xnames.pairs@) == Some(
                    v@[j],
                ),
        decreases names@.len() - i,
    {
        match resolve_name(&names[i], xnames) {
            Some(s) => {
                v.push(s);
            },
            None => {
                return Err(i);
            },
        }
        i += 1;
    }
    Ok(v)
}

/// Names the display library has resolved, keyed by the exact name.
pub struct NameMap {
    pub pairs: Vec<(Vec<char>, u32)>,
}

/// Element-wise equality of two character vectors.
pub fn chars_eq(a: &Vec<char>, b: &Vec<char>) -> (r: bool)
    ensures
        r <==> a@ == b@,
{
    if a.len() != b.len() {
        assert(a@.len() != b@.len());
        return false;
    }
    let n = a.len();
    let mut i: usize = 0;
    while i < n
        invariant
            i <= n,
            n == a@.len() == b@.len(),
            forall|k: int| 0 <= k < i ==> a@[k] == b@[k],
        decreases n - i,
    {
        if a[i] != b[i] {
            assert(a@[i as int] != b@[i as int]);
            return false;
        }
        i += 1;
    }
    assert(a@ =~= b@);
    true
}

impl NameMap {
    pub fn new() -> (r: Self)
        ensures
            r.pairs@.len() == 0,
    {
        NameMap { pairs: Vec::new() }
    }

    /// Looks a name up.
    pub fn get(&self, q: &Vec<char>) -> (r: Option<u32>)
        ensures
            r == assoc_get_name(self.pairs@, q@),
    {
        let n = self.pairs.len();
        let mut i: usize = 0;
        while i < n
            invariant
                i <= n,
                n == self.pairs@.len(),
                forall|j: int| 0 <= j < i ==> (#[trigger] self.pairs@[j]).0@ != q@,
            decreases n - i,
        {
            if chars_eq(&self.pairs[i].0, q) {
                proof {
                    crate::table::lemma_assoc_name_present(self.pairs@, q@, i as int);
                }
                return Some(self.pairs[i].1);
            }
            i += 1;
        }
        proof {
            crate::table::lemma_assoc_name_skip(self.pairs@, q@, n as int);
        }
        None
    }

    /// Records the display library's answer for a name.
    pub fn push(&mut self, name: Vec<char>, sym: u32)
        ensures
            final(self).pairs@ == old(self).pairs@.push((name, sym)),
    {
        self.pairs.push((name, sym));
    }

    /// The first recorded name of a keysym, if one is known.
    pub fn name_of(&self, sym: u32) -> (r: Option<Vec<char>>)
        ensures
            match spec_name_of(self.pairs@, sym) {
                Some(n) => r matches Some(v) && v@ == n,
                None => r is None,
            },
    {
        let n = self.pairs.len();
        let mut i: usize = 0;
        while i < n
            invariant
                i <= n,
                n == self.pairs@.len(),
                forall|j: int| 0 <= j < i ==> (#[trigger] self.pairs@[j]).1 != sym,
            decreases n - i,
        {
            if self.pairs[i].1 == sym {
                proof {
                    lemma_name_of_present(self.pairs@, sym, i as int);
                }
                return Some(copy_chars(&self.pairs[i].0));
            }
            i += 1;
        }
        proof {
            lemma_name_of_skip(self.pairs@, sym, n as int);
        }
        None
    }
}

/// The name of the first pair carrying keysym `sym`.
pub open spec fn spec_name_of(s: Seq<(Vec<char>, u32)>, sym: u32) -> Option<Seq<char>>
    decreases s.len(),
{
    if s.len() == 0 {
        None
    } else if s[0].1 == sym {
        Some(s[0].0@)
    } else {
        spec_name_of(s.drop_first(), sym)
    }
}

proof fn lemma_name_of_skip(s: Seq<(Vec<char>, u32)>, sym: u32, i: int)
    requires
        0 <= i <= s.len(),
        forall|j: int| 0 <= j < i ==> (#[trigger] s[j]).1 != sym,
    ensures
        spec_name_of(s, sym) == spec_name_of(s.skip(i), sym),
    decreases i,
{
    if i > 0 {
        lemma_name_of_skip(s.drop_first(), sym, i - 1);
        assert(s.drop_first().skip(i - 1) =~= s.skip(i));
    } else {
        assert(s.skip(0) =~= s);
    }
}

proof fn lemma_name_of_present(s: Seq<(Vec<char>, u32)>, sym: u32, i: int)
    requires
        0 <= i < s.len(),
        s[i].1 == sym,
        forall|j: int| 0 <= j < i ==> (#[trigger] s[j]).1 != sym,
    ensures
        spec_name_of(s, sym) == Some(s[i].0@),
{
    lemma_name_of_skip(s, sym, i);
    assert(s.skip(i)[0] == s[i]);
}

} // verus!
