//! Rendering key sequences back to configuration text, and what the
//! grammar guarantees about reading them again.
//!
//! A sequence renders as its key names, each followed by a press or
//! release glyph, separated by single spaces.  The laws here state that
//! the grammar reads back exactly what was rendered: any list of legal
//! key names survives the round trip, whatever glyphs stand between
//! them, and a single legal name always parses.

use vstd::prelude::*;

use crate::names::is_name_char;
use crate::parse::{
    class_ok, is_space, kseq_rest, run_end, spec_keyname, spec_kseq, spec_seq_sep,
};

verus! {

/// A legal key name: nonempty, letters, digits and underscores only.
pub open spec fn valid_name(n: Seq<char>) -> bool {
    n.len() > 0 && forall|j: int| 0 <= j < n.len() ==> is_name_char(#[trigger] n[j])
}

/// A press or release glyph.
pub open spec fn valid_mark(c: char) -> bool {
    c == '\u{2198}' || c == '\u{2197}'
}

/// The text of names `k..` with their glyphs, space-separated.
pub open spec fn render_run(names: Seq<Seq<char>>, marks: Seq<char>, k: int) -> Seq<char>
    decreases names.len() - k,
{
    if k < 0 || k >= names.len() {
        Seq::empty()
    } else if k == names.len() - 1 {
        names[k] + seq![marks[k]]
    } else {
        names[k] + seq![marks[k]] + seq![' '] + render_run(names, marks, k + 1)
    }
}

/// A run of one class is found the same at an offset.
proof fn lemma_run_end_shift(cl: int, s: Seq<char>, t: int, j: int)
    requires
        0 <= t,
        0 <= j <= s.len() - t,
    ensures
        run_end(cl, s, t + j) == t + run_end(cl, s.skip(t), j),
    decreases s.len() - t - j,
{
    assert(s.skip(t).len() == s.len() - t);
    if t + j < s.len() {
        assert(s.skip(t)[j] == s[t + j]);
        if class_ok(cl, s[t + j]) {
            lemma_run_end_shift(cl, s, t, j + 1);
        }
    }
}

/// A maximal run against a boundary: all of `a`, nothing of `b`.
proof fn lemma_run_end_concat(cl: int, a: Seq<char>, b: Seq<char>)
    requires
        forall|j: int| 0 <= j < a.len() ==> class_ok(cl, #[trigger] a[j]),
        b.len() == 0 || !class_ok(cl, b[0]),
    ensures
        run_end(cl, a + b, 0) == a.len(),
{
    lemma_run_end_concat_from(cl, a, b, 0);
}

proof fn lemma_run_end_concat_from(cl: int, a: Seq<char>, b: Seq<char>, j: int)
    requires
        0 <= j <= a.len(),
        forall|t: int| j <= t < a.len() ==> class_ok(cl, #[trigger] a[t]),
        b.len() == 0 || !class_ok(cl, b[0]),
    ensures
        run_end(cl, a + b, j) == a.len(),
    decreases a.len() - j,
{
    if j < a.len() {
        assert((a + b)[j] == a[j]);
        lemma_run_end_concat_from(cl, a, b, j + 1);
    } else {
        if b.len() > 0 {
            assert((a + b)[j] == b[0]);
        }
    }
}

/// The parse of a rendered run, one name and glyph at a time.
proof fn lemma_kseq_rest_render(names: Seq<Seq<char>>, marks: Seq<char>, k: int)
    requires
        0 <= k < names.len(),
        marks.len() == names.len(),
        forall|t: int| 0 <= t < names.len() ==> valid_name(#[trigger] names[t]),
        forall|t: int| 0 <= t < marks.len() ==> valid_mark(#[trigger] marks[t]),
    ensures
        kseq_rest(render_run(names, marks, k), 0) == (
            render_run(names, marks, k).len() as int,
            names.skip(k),
        ),
    decreases names.len() - k,
{
    let s = render_run(names, marks, k);
    let n = names[k];
    let m = marks[k];
    assert(!is_name_char(m) && !is_space(m));
    if k == names.len() - 1 {
        assert(s =~= n + seq![m]);
        // the name fills the head of the line
        lemma_run_end_concat(1, n, seq![m]);
        assert(s[0] == n[0]);
        assert(spec_keyname(s, 0) == Some(n.len() as int));
        assert(s.subrange(0, n.len() as int) =~= n);
        // after the name: the glyph, then the end of the line
        let a0 = run_end(0, s, n.len() as int);
        lemma_run_end_concat_from(0, n, seq![m], n.len() as int);
        assert(a0 == n.len());
        assert(s[a0] == m);
        lemma_run_end(0, s, n.len() as int + 1);
        assert(run_end(0, s, n.len() as int + 1) == s.len());
        assert(spec_seq_sep(s, n.len() as int) == Some(
            (s.len() as int, seq![m]),
        ));
        // nothing follows, so the run ends here
        assert(spec_keyname(s, s.len() as int) is None);
        assert(kseq_rest(s, s.len() as int) == (s.len() as int, Seq::<Seq<char>>::empty()));
        assert(names.skip(k) =~= seq![n]);
        assert(kseq_rest(s, 0).1 =~= seq![n] + Seq::<Seq<char>>::empty());
        assert(kseq_rest(s, 0).1 =~= names.skip(k));
    } else {
        let rest = render_run(names, marks, k + 1);
        let head = n + seq![m] + seq![' '];
        assert(s =~= head + rest);
        assert(rest.len() > 0 && rest[0] == names[k + 1][0]);
        assert(is_name_char(rest[0]));
        // the name fills the head of the line
        assert(forall|j: int| 0 <= j < n.len() ==> class_ok(1, #[trigger] n[j]));
        lemma_run_end_concat(1, n, seq![m] + seq![' '] + rest);
        assert(n + (seq![m] + seq![' '] + rest) =~= s);
        assert(s[0] == n[0]);
        assert(spec_keyname(s, 0) == Some(n.len() as int));
        assert(s.subrange(0, n.len() as int) =~= n);
        // the separator: no space, the glyph, exactly one space
        lemma_run_end_concat_from(0, n, seq![m] + seq![' '] + rest, n.len() as int);
        assert(run_end(0, s, n.len() as int) == n.len());
        assert(s[n.len() as int] == m);
        lemma_run_end_shift(0, s, n.len() as int + 1, 0);
        assert(s.skip(n.len() as int + 1) =~= seq![' '] + rest);
        lemma_run_end_concat(0, seq![' '], rest);
        assert(run_end(0, s, n.len() as int + 1) == n.len() + 2);
        assert(spec_seq_sep(s, n.len() as int) == Some(
            (n.len() as int + 2, seq![m]),
        ));
        // the rest of the run parses the remaining names
        lemma_kseq_rest_render(names, marks, k + 1);
        lemma_kseq_rest_shift(s, n.len() as int + 2);
        assert(s.skip(n.len() as int + 2) =~= rest);
        assert(kseq_rest(s, n.len() as int + 2) == (
            n.len() as int + 2 + rest.len(),
            names.skip(k + 1),
        ));
        assert(kseq_rest(s, 0).0 == s.len());
        assert(kseq_rest(s, 0).1 =~= seq![n] + names.skip(k + 1));
        assert(seq![n] + names.skip(k + 1) =~= names.skip(k));
    }
}

/// Re-export of the bounds lemma for runs.
proof fn lemma_run_end(cl: int, s: Seq<char>, i: int)
    requires
        0 <= i <= s.len(),
    ensures
        i <= run_end(cl, s, i) <= s.len(),
        run_end(cl, s, i) < s.len() ==> !class_ok(cl, s[run_end(cl, s, i)]),
{
    crate::parse::lemma_run_end(cl, s, i);
}

/// A key-name run parses the same at an offset.
proof fn lemma_kseq_rest_shift(s: Seq<char>, t: int)
    requires
        0 <= t <= s.len(),
    ensures
        kseq_rest(s, t).0 == t + kseq_rest(s.skip(t), 0).0,
        kseq_rest(s, t).1 == kseq_rest(s.skip(t), 0).1,
    decreases s.len() - t,
{
    lemma_kseq_rest_shift_from(s, t, 0);
}

/// The same, phrased from an inner position of the suffix.
proof fn lemma_kseq_rest_shift_from(s: Seq<char>, t: int, j: int)
    requires
        0 <= t,
        0 <= j <= s.len() - t,
    ensures
        kseq_rest(s, t + j).0 == t + kseq_rest(s.skip(t), j).0,
        kseq_rest(s, t + j).1 == kseq_rest(s.skip(t), j).1,
    decreases s.len() - t - j,
{
    let u = s.skip(t);
    assert(u.len() == s.len() - t);
    lemma_keyname_shift(s, t, j);
    match spec_keyname(u, j) {
        None => {
        },
        Some(j1u) => {
            let j1 = t + j1u;
            assert(spec_keyname(s, t + j) == Some(j1));
            crate::parse::lemma_run_end(1, u, j);
            assert(j < j1u <= u.len());
            assert(s.subrange(t + j, j1) =~= u.subrange(j, j1u));
            lemma_seq_sep_shift(s, t, j1u);
            let j2u = match spec_seq_sep(u, j1u) {
                Some((a, _)) => a,
                None => j1u,
            };
            crate::parse::lemma_run_end(1, u, j);
            assert(j1u == run_end(1, u, j));
            assert(j < j1u);
            if spec_seq_sep(u, j1u) is Some {
                lemma_seq_sep_bounds(u, j1u);
            }
            if j < j2u <= u.len() {
                lemma_kseq_rest_shift_from(s, t, j2u);
            }
        },
    }
}

/// A separator consumes forward and stays in bounds.
proof fn lemma_seq_sep_bounds(s: Seq<char>, i: int)
    requires
        0 <= i <= s.len(),
    ensures
        spec_seq_sep(s, i) matches Some(p) ==> i < p.0 <= s.len(),
{
    crate::parse::lemma_run_end(0, s, i);
    let a = run_end(0, s, i);
    if 0 <= a < s.len() && (s[a] == '\u{2198}' || s[a] == '\u{2197}') {
        crate::parse::lemma_run_end(0, s, a + 1);
    }
}

/// A key name parses the same at an offset.
proof fn lemma_keyname_shift(s: Seq<char>, t: int, j: int)
    requires
        0 <= t,
        0 <= j <= s.len() - t,
    ensures
        spec_keyname(s, t + j) == match spec_keyname(s.skip(t), j) {
            Some(e) => Some(t + e),
            None => None::<int>,
        },
{
    let u = s.skip(t);
    if j < u.len() {
        assert(u[j] == s[t + j]);
    }
    if 0 <= t + j < s.len() && is_name_char(s[t + j]) {
        lemma_run_end_shift(1, s, t, j);
    }
}

/// A separator parses the same at an offset.
proof fn lemma_seq_sep_shift(s: Seq<char>, t: int, j: int)
    requires
        0 <= t,
        0 <= j <= s.len() - t,
    ensures
        spec_seq_sep(s, t + j) == match spec_seq_sep(s.skip(t), j) {
            Some((a, v)) => Some((t + a, v)),
            None => None::<(int, Seq<char>)>,
        },
{
    let u = s.skip(t);
    lemma_run_end_shift(0, s, t, j);
    let au = run_end(0, u, j);
    crate::parse::lemma_run_end(0, u, j);
    if au < u.len() {
        assert(u[au] == s[t + au]);
    }
    if 0 <= au < u.len() && (u[au] == '\u{2198}' || u[au] == '\u{2197}') {
        lemma_run_end_shift(0, s, t, au + 1);
    } else if j < u.len() && is_space(u[j]) {
        assert(u[j] == s[t + j]);
        assert(s.subrange(t + j, t + au) =~= u.subrange(j, au));
    }
}

/// Any single legal key name parses, in full, to itself.
pub proof fn lemma_keyname_accepts(n: Seq<char>)
    requires
        valid_name(n),
    ensures
        spec_keyname(n, 0) == Some(n.len() as int),
{
    lemma_run_end_concat(1, n, Seq::empty());
    assert(n + Seq::<char>::empty() =~= n);
}

/// Rendering a sequence of legal key names with press and release
/// glyphs and parsing the text back yields exactly those names.
pub proof fn lemma_render_round_trip(names: Seq<Seq<char>>, marks: Seq<char>)
    requires
        names.len() >= 1,
        marks.len() == names.len(),
        forall|t: int| 0 <= t < names.len() ==> valid_name(#[trigger] names[t]),
        forall|t: int| 0 <= t < marks.len() ==> valid_mark(#[trigger] marks[t]),
    ensures
        spec_kseq(render_run(names, marks, 0), 0) == Some(
            (render_run(names, marks, 0).len() as int, names),
        ),
{
    lemma_kseq_rest_render(names, marks, 0);
    let s = render_run(names, marks, 0);
    assert(s[0] == names[0][0]);
    assert(is_name_char(s[0]));
    assert(names.skip(0) =~= names);
}

/// Each escape pair in quoted text decodes to its single code point.
pub proof fn lemma_escape_pairs()
    ensures
        crate::parse::spec_escape('n') == Some('\n'),
        crate::parse::spec_escape('r') == Some('\r'),
        crate::parse::spec_escape('t') == Some('\t'),
        crate::parse::spec_escape('b') == Some('\u{8}'),
        crate::parse::spec_escape('f') == Some('\u{c}'),
        crate::parse::spec_escape('\\') == Some('\\'),
        crate::parse::spec_escape('/') == Some('/'),
        crate::parse::spec_escape('"') == Some('"'),
{
}

/// How often `q` occurs in a sequence.
pub open spec fn count_eq(s: Seq<u8>, q: u8) -> int
    decreases s.len(),
{
    if s.len() == 0 {
        0
    } else {
        count_eq(s.drop_last(), q) + if s.last() == q {
            1int
        } else {
            0
        }
    }
}

/// The glyph each event renders as: press when the same keycode has
/// appeared an even number of times before, release otherwise.
pub open spec fn mark_of(codes: Seq<u8>, i: int) -> char {
    if count_eq(codes.take(i), codes[i]) % 2 == 0 {
        '\u{2198}'
    } else {
        '\u{2197}'
    }
}

/// The press and release glyphs of a keycode sequence.
pub fn seq_marks(codes: &[u8]) -> (r: Vec<char>)
    ensures
        r@.len() == codes@.len(),
        forall|i: int| 0 <= i < codes@.len() ==> r@[i] == mark_of(codes@, i),
{
    let mut r: Vec<char> = Vec::new();
    let mut i: usize = 0;
    while i < codes.len()
        invariant
            i <= codes@.len(),
            r@.len() == i,
            forall|t: int| 0 <= t < i ==> r@[t] == mark_of(codes@, t),
        decreases codes@.len() - i,
    {
        let mut cnt: usize = 0;
        let mut j: usize = 0;
        while j < i
            invariant
                j <= i < codes@.len(),
                cnt == count_eq(codes@.take(j as int), codes@[i as int]),
                cnt <= j,
            decreases i - j,
        {
            proof {
                let pre = codes@.take(j as int);
                assert(codes@.take(j + 1).drop_last() =~= pre);
                assert(codes@.take(j + 1).last() == codes@[j as int]);
            }
            if codes[j] == codes[i] {
                cnt += 1;
            }
            j += 1;
        }
        if cnt % 2 == 0 {
            r.push('\u{2198}');
        } else {
            r.push('\u{2197}');
        }
        i += 1;
    }
    r
}

/// Renders names and glyphs into one line of sequence text.
pub fn render_seq_text(names: &Vec<Vec<char>>, marks: &Vec<char>) -> (r: Vec<char>)
    requires
        names@.len() == marks@.len(),
        names@.len() >= 1,
    ensures
        r@ == render_run(crate::parse::names_view(names@), marks@, 0),
{
    let mut r: Vec<char> = Vec::new();
    let n = names.len();
    let ghost nv = crate::parse::names_view(names@);
    let mut k: usize = 0;
    while k < n
        invariant
            k <= n,
            n == names@.len() == marks@.len(),
            n >= 1,
            nv == crate::parse::names_view(names@),
            render_run(nv, marks@, 0) =~= r@ + render_run(nv, marks@, k as int),
        decreases n - k,
    {
        let ghost r0 = r@;
        let mut t: usize = 0;
        while t < names[k].len()
            invariant
                k < n,
                n == names@.len(),
                t <= names@[k as int]@.len(),
                r@ =~= r0 + names@[k as int]@.take(t as int),
            decreases names@[k as int]@.len() - t,
        {
            r.push(names[k][t]);
            proof {
                assert(r@ =~= r0 + names@[k as int]@.take(t + 1));
            }
            t += 1;
        }
        r.push(marks[k]);
        if k + 1 < n {
            r.push(' ');
            proof {
                assert(names@[k as int]@.take(names@[k as int]@.len() as int) =~= nv[k as int]);
                assert(render_run(nv, marks@, k as int) =~= nv[k as int] + seq![marks@[k as int]]
                    + seq![' '] + render_run(nv, marks@, k + 1));
                assert(r@ =~= (r0 + nv[k as int]).push(marks@[k as int]).push(' '));
                assert(render_run(nv, marks@, 0) =~= r@ + render_run(nv, marks@, k + 1));
            }
        } else {
            proof {
                assert(names@[k as int]@.take(names@[k as int]@.len() as int) =~= nv[k as int]);
                assert(render_run(nv, marks@, k as int) =~= nv[k as int] + seq![marks@[k as int]]);
                assert(r@ =~= (r0 + nv[k as int]).push(marks@[k as int]));
                assert(render_run(nv, marks@, k + 1) =~= Seq::<char>::empty());
                assert(render_run(nv, marks@, 0) =~= r@ + render_run(nv, marks@, k + 1));
            }
        }
        k += 1;
    }
    proof {
        assert(render_run(nv, marks@, n as int) =~= Seq::<char>::empty());
        assert(r@ + Seq::<char>::empty() =~= r@);
    }
    r
}

/// The character of one decimal digit.
pub open spec fn digit_char(d: int) -> char {
    if d == 0 {
        '0'
    } else if d == 1 {
        '1'
    } else if d == 2 {
        '2'
    } else if d == 3 {
        '3'
    } else if d == 4 {
        '4'
    } else if d == 5 {
        '5'
    } else if d == 6 {
        '6'
    } else if d == 7 {
        '7'
    } else if d == 8 {
        '8'
    } else {
        '9'
    }
}

/// The decimal rendering of a number.
pub open spec fn dec_rep(n: int) -> Seq<char>
    decreases n,
{
    if n <= 9 {
        seq![digit_char(if n < 0 {
            0
        } else {
            n
        })]
    } else {
        dec_rep(n / 10) + seq![digit_char(n % 10)]
    }
}

/// Exec mirror of one digit.
fn digit_char_x(d: u32) -> (r: char)
    requires
        d <= 9,
    ensures
        r == digit_char(d as int),
{
    if d == 0 {
        '0'
    } else if d == 1 {
        '1'
    } else if d == 2 {
        '2'
    } else if d == 3 {
        '3'
    } else if d == 4 {
        '4'
    } else if d == 5 {
        '5'
    } else if d == 6 {
        '6'
    } else if d == 7 {
        '7'
    } else if d == 8 {
        '8'
    } else {
        '9'
    }
}

/// Renders a number in decimal.
pub fn dec_chars(n: u32) -> (r: Vec<char>)
    ensures
        r@ == dec_rep(n as int),
    decreases n,
{
    if n <= 9 {
        let mut r: Vec<char> = Vec::new();
        r.push(digit_char_x(n));
        proof {
            assert(r@ =~= dec_rep(n as int));
        }
        r
    } else {
        let mut r = dec_chars(n / 10);
        r.push(digit_char_x(n % 10));
        proof {
            assert(r@ =~= dec_rep(n as int));
        }
        r
    }
}

/// How one keysym of a keystroke renders: its recorded name, or its
/// number.
pub open spec fn sym_text(sym: u32, xn: Seq<(Vec<char>, u32)>) -> Seq<char> {
    match crate::names::spec_name_of(xn, sym) {
        Some(n) => n,
        None => dec_rep(sym as int),
    }
}

/// The keysyms of a keystroke joined by plus signs.
pub open spec fn syms_text(syms: Seq<u32>, xn: Seq<(Vec<char>, u32)>, k: int) -> Seq<char>
    decreases syms.len() - k,
{
    if k < 0 || k >= syms.len() {
        Seq::empty()
    } else if k == syms.len() - 1 {
        sym_text(syms[k], xn)
    } else {
        sym_text(syms[k], xn) + seq!['+'] + syms_text(syms, xn, k + 1)
    }
}

/// Words joined by single spaces.
pub open spec fn words_text(ws: Seq<Seq<char>>, k: int) -> Seq<char>
    decreases ws.len() - k,
{
    if k < 0 || k >= ws.len() {
        Seq::empty()
    } else if k == ws.len() - 1 {
        ws[k]
    } else {
        ws[k] + seq![' '] + words_text(ws, k + 1)
    }
}

/// How one action renders.
pub open spec fn act_text(a: crate::conf::Action<u32>, xn: Seq<(Vec<char>, u32)>) -> Seq<char> {
    match a {
        crate::conf::Action::Text(t) => seq!['t', 'e', 'x', 't', ' '] + t@,
        crate::conf::Action::KeyStroke(syms) => seq!['k', 'e', 'y', ' '] + syms_text(
            syms@,
            xn,
            0,
        ),
        crate::conf::Action::MouseClick(n) => seq!['m', 'o', 'u', 's', 'e', ' '] + dec_rep(
            n as int,
        ),
        crate::conf::Action::Repeat(n) => seq!['r', 'e', 'p', 'e', 'a', 't', ' '] + dec_rep(
            n as int,
        ),
        crate::conf::Action::Exec(ws) => seq!['e', 'x', 'e', 'c', ' '] + words_text(
            crate::conf::words_view(ws@),
            0,
        ),
    }
}

/// An action list rendered as the configuration would spell it:
/// comma-separated actions.
pub open spec fn acts_text(acts: Seq<crate::conf::Action<u32>>, xn: Seq<(Vec<char>, u32)>, k: int) -> Seq<
    char,
>
    decreases acts.len() - k,
{
    if k < 0 || k >= acts.len() {
        Seq::empty()
    } else if k == acts.len() - 1 {
        act_text(acts[k], xn)
    } else {
        act_text(acts[k], xn) + seq![',', ' '] + acts_text(acts, xn, k + 1)
    }
}

/// Appends a word to the buffer.
fn push_all(r: &mut Vec<char>, w: &[char])
    ensures
        final(r)@ == old(r)@ + w@,
{
    let mut t: usize = 0;
    while t < w.len()
        invariant
            t <= w@.len(),
            r@ =~= old(r)@ + w@.take(t as int),
        decreases w@.len() - t,
    {
        r.push(w[t]);
        proof {
            assert(r@ =~= old(r)@ + w@.take(t + 1));
        }
        t += 1;
    }
    proof {
        assert(old(r)@ + w@.take(w@.len() as int) =~= old(r)@ + w@);
    }
}

/// Renders a bound action list back to the configuration's spelling,
/// for diagnostics: names for the keysyms it knows, numbers otherwise.
pub fn render_acts(acts: &Vec<crate::conf::Action<u32>>, names: &crate::names::NameMap) -> (r: Vec<
    char,
>)
    ensures
        r@ == acts_text(acts@, names.pairs@, 0),
{
    let mut r: Vec<char> = Vec::new();
    let n = acts.len();
    let mut k: usize = 0;
    while k < n
        invariant
            k <= n,
            n == acts@.len(),
            acts_text(acts@, names.pairs@, 0) =~= r@ + acts_text(
                acts@,
                names.pairs@,
                k as int,
            ),
        decreases n - k,
    {
        let ghost r0 = r@;
        match &acts[k] {
            crate::conf::Action::Text(t) => {
                push_all(&mut r, &['t', 'e', 'x', 't', ' ']);
                let ghost mid = r@;
                push_all(&mut r, t.as_slice());
                proof {
                    assert(mid =~= r0 + seq!['t', 'e', 'x', 't', ' ']);
                    assert(r@ =~= r0 + act_text(acts@[k as int], names.pairs@));
                }
            },
            crate::conf::Action::KeyStroke(syms) => {
                push_all(&mut r, &['k', 'e', 'y', ' ']);
                let ghost mid = r@;
                let m = syms.len();
                let mut t: usize = 0;
                while t < m
                    invariant
                        t <= m,
                        m == syms@.len(),
                        mid + syms_text(syms@, names.pairs@, 0) =~= r@ + syms_text(
                            syms@,
                            names.pairs@,
                            t as int,
                        ),
                    decreases m - t,
                {
                    match names.name_of(syms[t]) {
                        Some(nm) => {
                            push_all(&mut r, nm.as_slice());
                        },
                        None => {
                            let d = dec_chars(syms[t]);
                            push_all(&mut r, d.as_slice());
                        },
                    }
                    if t + 1 < m {
                        push_all(&mut r, &['+']);
                    }
                    proof {
                        assert(mid + syms_text(syms@, names.pairs@, 0) =~= r@ + syms_text(
                            syms@,
                            names.pairs@,
                            t + 1,
                        ));
                    }
                    t += 1;
                }
                proof {
                    assert(syms_text(syms@, names.pairs@, m as int) =~= Seq::<char>::empty());
                    assert(r@ =~= mid + syms_text(syms@, names.pairs@, 0));
                    assert(r@ =~= r0 + act_text(acts@[k as int], names.pairs@));
                }
            },
            crate::conf::Action::MouseClick(b) => {
                push_all(&mut r, &['m', 'o', 'u', 's', 'e', ' ']);
                let d = dec_chars(*b as u32);
                push_all(&mut r, d.as_slice());
                proof {
                    assert(r@ =~= r0 + act_text(acts@[k as int], names.pairs@));
                }
            },
            crate::conf::Action::Repeat(b) => {
                push_all(&mut r, &['r', 'e', 'p', 'e', 'a', 't', ' ']);
                let d = dec_chars(*b as u32);
                push_all(&mut r, d.as_slice());
                proof {
                    assert(r@ =~= r0 + act_text(acts@[k as int], names.pairs@));
                }
            },
            crate::conf::Action::Exec(ws) => {
                push_all(&mut r, &['e', 'x', 'e', 'c', ' ']);
                let ghost mid = r@;
                let ghost wsv = crate::conf::words_view(ws@);
                let m = ws.len();
                let mut t: usize = 0;
                while t < m
                    invariant
                        t <= m,
                        m == ws@.len(),
                        wsv == crate::conf::words_view(ws@),
                        mid + words_text(wsv, 0) =~= r@ + words_text(wsv, t as int),
                    decreases m - t,
                {
                    push_all(&mut r, ws[t].as_slice());
                    if t + 1 < m {
                        push_all(&mut r, &[' ']);
                    }
                    proof {
                        assert(wsv[t as int] == ws@[t as int]@);
                        assert(mid + words_text(wsv, 0) =~= r@ + words_text(wsv, t + 1));
                    }
                    t += 1;
                }
                proof {
                    assert(words_text(wsv, m as int) =~= Seq::<char>::empty());
                    assert(r@ =~= mid + words_text(wsv, 0));
                    assert(r@ =~= r0 + act_text(acts@[k as int], names.pairs@));
                }
            },
        }
        if k + 1 < n {
            push_all(&mut r, &[',', ' ']);
        }
        k += 1;
    }
    r
}

} // verus!
