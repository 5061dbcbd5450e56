//! The configuration grammar.
//!
//! A line holds an optional assignment — a sequence of key names, `=`,
//! and a comma-separated list of actions — followed by an optional `#`
//! comment.  Key names are runs of letters, digits and underscores; the
//! press and release glyphs between them are cosmetic, any whitespace
//! separates.  Quoted text understands the usual backslash escapes.
//!
//! Each parser takes the line as characters and a start position and
//! returns the position it stopped at together with what it read; its
//! contract equates it with the spec-level grammar function of the same
//! shape.

use vstd::prelude::*;

use crate::conf::Action;
use crate::names::is_name_char;

verus! {

/// Whitespace between tokens.
pub open spec fn is_space(c: char) -> bool {
    c == ' ' || c == '\t'
}

/// A character allowed inside quoted text without escaping.
pub open spec fn is_plain_in_quotes(c: char) -> bool {
    c != '"' && c != '\\' && c != '\n'
}

/// A character of an unquoted argument word.
pub open spec fn is_word_char(c: char) -> bool {
    c != '"' && c != ',' && c != ' ' && c != '\t' && c != '\n'
}

/// A character an argument string may hold before the comma.
pub open spec fn is_arg_char(c: char) -> bool {
    c != '"' && c != ',' && c != '\n' && c != '#' && c != '\r'
}

/// A character before the end of the line.
pub open spec fn is_not_eol(c: char) -> bool {
    c != '\r' && c != '\n'
}

/// An ASCII decimal digit.
pub open spec fn is_digit(c: char) -> bool {
    '0' <= c && c <= '9'
}

/// End of the run of characters satisfying `cl`, starting at `i`.
/// The class is picked by number so one definition serves every scanner.
pub open spec fn class_ok(cl: int, c: char) -> bool {
    if cl == 0 {
        is_space(c)
    } else if cl == 1 {
        is_name_char(c)
    } else if cl == 2 {
        is_plain_in_quotes(c)
    } else if cl == 3 {
        is_word_char(c)
    } else if cl == 4 {
        is_arg_char(c)
    } else if cl == 5 {
        is_not_eol(c)
    } else {
        is_digit(c)
    }
}

/// First position at or after `i` whose character falls outside the
/// class (or the end of the line).
pub open spec fn run_end(cl: int, s: Seq<char>, i: int) -> int
    decreases s.len() - i,
{
    if 0 <= i < s.len() && class_ok(cl, s[i]) {
        run_end(cl, s, i + 1)
    } else {
        i
    }
}

/// The run is a well-bounded maximal match.
pub proof fn lemma_run_end(cl: int, s: Seq<char>, i: int)
    requires
        0 <= i <= s.len(),
    ensures
        i <= run_end(cl, s, i) <= s.len(),
        forall|t: int| i <= t < run_end(cl, s, i) ==> class_ok(cl, s[t]),
        run_end(cl, s, i) < s.len() ==> !class_ok(cl, s[run_end(cl, s, i)]),
    decreases s.len() - i,
{
    if i < s.len() && class_ok(cl, s[i]) {
        lemma_run_end(cl, s, i + 1);
    }
}

/// Exec mirror of one class test.
fn class_ok_x(cl: usize, c: char) -> (r: bool)
    requires
        cl <= 6,
    ensures
        r == class_ok(cl as int, c),
{
    if cl == 0 {
        c == ' ' || c == '\t'
    } else if cl == 1 {
        crate::names::is_name_char_x(c)
    } else if cl == 2 {
        c != '"' && c != '\\' && c != '\n'
    } else if cl == 3 {
        c != '"' && c != ',' && c != ' ' && c != '\t' && c != '\n'
    } else if cl == 4 {
        c != '"' && c != ',' && c != '\n' && c != '#' && c != '\r'
    } else if cl == 5 {
        c != '\r' && c != '\n'
    } else {
        let u = c as u32;
        48 <= u && u <= 57
    }
}

/// Scans to the end of the run of class `cl` characters.
fn scan(cl: usize, s: &[char], i: usize) -> (r: usize)
    requires
        cl <= 6,
        i <= s@.len(),
    ensures
        r == run_end(cl as int, s@, i as int),
        i <= r <= s@.len(),
{
    let mut j = i;
    while j < s.len() && class_ok_x(cl, s[j])
        invariant
            cl <= 6,
            i <= j <= s@.len(),
            run_end(cl as int, s@, i as int) == run_end(cl as int, s@, j as int),
        decreases s@.len() - j,
    {
        j += 1;
    }
    j
}

/// Copies `s[i..j]` out.
pub fn sub_chars(s: &[char], i: usize, j: usize) -> (r: Vec<char>)
    requires
        i <= j <= s@.len(),
    ensures
        r@ == s@.subrange(i as int, j as int),
{
    let mut r: Vec<char> = Vec::new();
    let mut t = i;
    while t < j
        invariant
            i <= t <= j <= s@.len(),
            r@ =~= s@.subrange(i as int, t as int),
        decreases j - t,
    {
        r.push(s[t]);
        proof {
            assert(r@ =~= s@.subrange(i as int, t + 1));
        }
        t += 1;
    }
    r
}

/// A key name: a nonempty run of letters, digits and underscores.
pub open spec fn spec_keyname(s: Seq<char>, i: int) -> Option<int> {
    if 0 <= i < s.len() && is_name_char(s[i]) {
        Some(run_end(1, s, i))
    } else {
        None
    }
}

/// Parses a key name, returning where it ends and its characters.
pub fn keyname(s: &[char], i: usize) -> (r: Option<(usize, Vec<char>)>)
    requires
        i <= s@.len(),
    ensures
        r is Some <==> spec_keyname(s@, i as int) is Some,
        r matches Some((j, v)) ==> spec_keyname(s@, i as int) == Some(j as int) && v@
            == s@.subrange(i as int, j as int) && i < j <= s@.len(),
{
    if i < s.len() && class_ok_x(1, s[i]) {
        let j = scan(1, s, i);
        proof {
            lemma_run_end(1, s@, i as int);
            assert(run_end(1, s@, i as int) == run_end(1, s@, i + 1));
        }
        Some((j, sub_chars(s, i, j)))
    } else {
        None
    }
}

/// A separator between key names: an optional press or release glyph
/// surrounded by optional whitespace, or plain whitespace.
pub open spec fn spec_seq_sep(s: Seq<char>, i: int) -> Option<(int, Seq<char>)> {
    let a = run_end(0, s, i);
    if 0 <= a < s.len() && (s[a] == '\u{2198}' || s[a] == '\u{2197}') {
        Some((run_end(0, s, a + 1), seq![s[a]]))
    } else if 0 <= i < s.len() && is_space(s[i]) {
        Some((run_end(0, s, i), s.subrange(i, run_end(0, s, i))))
    } else {
        None
    }
}

/// Parses one separator, returning the glyph or the whitespace matched.
pub fn seq_sep(s: &[char], i: usize) -> (r: Option<(usize, Vec<char>)>)
    requires
        i <= s@.len(),
    ensures
        r is Some <==> spec_seq_sep(s@, i as int) is Some,
        r matches Some((j, v)) ==> spec_seq_sep(s@, i as int) matches Some(sp) && sp.0 == j as int
            && sp.1 == v@ && i < j <= s@.len(),
{
    let a = scan(0, s, i);
    proof {
        lemma_run_end(0, s@, i as int);
    }
    if a < s.len() && (s[a] == '\u{2198}' || s[a] == '\u{2197}') {
        let j = scan(0, s, a + 1);
        proof {
            lemma_run_end(0, s@, a + 1);
        }
        let mut v: Vec<char> = Vec::new();
        v.push(s[a]);
        proof {
            assert(v@ =~= seq![s@[a as int]]);
        }
        Some((j, v))
    } else if i < s.len() && class_ok_x(0, s[i]) {
        proof {
            assert(a > i);
        }
        Some((a, sub_chars(s, i, a)))
    } else {
        None
    }
}

/// A nonempty run of characters needing no escape inside quotes.
pub fn not_escape(s: &[char], i: usize) -> (r: Option<(usize, Vec<char>)>)
    requires
        i <= s@.len(),
    ensures
        r is Some <==> (i < s@.len() && is_plain_in_quotes(s@[i as int])),
        r matches Some((j, v)) ==> j == run_end(2, s@, i as int) && v@ == s@.subrange(
            i as int,
            j as int,
        ) && i < j <= s@.len(),
{
    if i < s.len() && class_ok_x(2, s[i]) {
        let j = scan(2, s, i);
        proof {
            lemma_run_end(2, s@, i as int);
            assert(run_end(2, s@, i as int) == run_end(2, s@, i + 1));
        }
        Some((j, sub_chars(s, i, j)))
    } else {
        None
    }
}

/// The escape a backslash pair denotes, if it is a legal one.
pub open spec fn spec_escape(c: char) -> Option<char> {
    if c == 'n' {
        Some('\n')
    } else if c == 'r' {
        Some('\r')
    } else if c == 't' {
        Some('\t')
    } else if c == 'b' {
        Some('\u{8}')
    } else if c == 'f' {
        Some('\u{c}')
    } else if c == '\\' {
        Some('\\')
    } else if c == '/' {
        Some('/')
    } else if c == '"' {
        Some('"')
    } else {
        None
    }
}

/// A backslash escape pair.
pub open spec fn spec_escaped_char(s: Seq<char>, i: int) -> Option<(int, char)> {
    if 0 <= i && i + 1 < s.len() && s[i] == '\\' && spec_escape(s[i + 1]) is Some {
        Some((i + 2, spec_escape(s[i + 1])->0))
    } else {
        None
    }
}

/// Parses one escape pair into the character it denotes.
pub fn escaped_char(s: &[char], i: usize) -> (r: Option<(usize, char)>)
    requires
        i <= s@.len(),
    ensures
        r is Some <==> spec_escaped_char(s@, i as int) is Some,
        r matches Some((j, c)) ==> spec_escaped_char(s@, i as int) == Some((j as int, c)) && i < j
            <= s@.len(),
{
    if i < s.len() && i + 1 < s.len() && s[i] == '\\' {
        let c = s[i + 1];
        let d = if c == 'n' {
            Some('\n')
        } else if c == 'r' {
            Some('\r')
        } else if c == 't' {
            Some('\t')
        } else if c == 'b' {
            Some('\u{8}')
        } else if c == 'f' {
            Some('\u{c}')
        } else if c == '\\' {
            Some('\\')
        } else if c == '/' {
            Some('/')
        } else if c == '"' {
            Some('"')
        } else {
            None
        };
        match d {
            Some(c2) => Some((i + 2, c2)),
            None => None,
        }
    } else {
        None
    }
}

/// A literal run or one escape pair inside quoted text.
pub open spec fn spec_lit_or_esc(s: Seq<char>, i: int) -> Option<(int, Seq<char>)> {
    if 0 <= i < s.len() && is_plain_in_quotes(s[i]) {
        Some((run_end(2, s, i), s.subrange(i, run_end(2, s, i))))
    } else {
        match spec_escaped_char(s, i) {
            Some((j, c)) => Some((j, seq![c])),
            None => None,
        }
    }
}

/// Parses a literal run or one escape.
pub fn lit_or_esc(s: &[char], i: usize) -> (r: Option<(usize, Vec<char>)>)
    requires
        i <= s@.len(),
    ensures
        r is Some <==> spec_lit_or_esc(s@, i as int) is Some,
        r matches Some((j, v)) ==> spec_lit_or_esc(s@, i as int) matches Some(p) && p.0 == j as int
            && p.1 == v@ && i < j <= s@.len(),
{
    if i < s.len() && class_ok_x(2, s[i]) {
        let j = scan(2, s, i);
        proof {
            lemma_run_end(2, s@, i as int);
            assert(run_end(2, s@, i as int) == run_end(2, s@, i + 1));
        }
        Some((j, sub_chars(s, i, j)))
    } else {
        match escaped_char(s, i) {
            Some((j, c)) => {
                let mut v: Vec<char> = Vec::new();
                v.push(c);
                proof {
                    assert(v@ =~= seq![c]);
                }
                Some((j, v))
            },
            None => None,
        }
    }
}

/// A successful piece consumes at least one character and stays in
/// bounds.
pub proof fn lemma_lit_or_esc_bounds(s: Seq<char>, i: int)
    requires
        0 <= i <= s.len(),
    ensures
        spec_lit_or_esc(s, i) matches Some(p) ==> i < p.0 <= s.len(),
{
    lemma_run_end(2, s, i);
}

/// Quoted-text content: one or more literal runs and escapes, decoded
/// and concatenated.
pub open spec fn spec_cwe(s: Seq<char>, i: int) -> Option<(int, Seq<char>)>
    decreases s.len() - i,
{
    match spec_lit_or_esc(s, i) {
        None => None,
        Some((j, v)) => {
            if i < j <= s.len() {
                match spec_cwe(s, j) {
                    Some((j2, v2)) => Some((j2, v + v2)),
                    None => Some((j, v)),
                }
            } else {
                Some((j, v))
            }
        },
    }
}

/// Parses quoted-text content, decoding escapes.
pub fn content_with_escape(s: &[char], i: usize) -> (r: Option<(usize, Vec<char>)>)
    requires
        i <= s@.len(),
    ensures
        r is Some <==> spec_cwe(s@, i as int) is Some,
        r matches Some((j, v)) ==> spec_cwe(s@, i as int) matches Some(p) && p.0 == j as int && p.1
            == v@ && i < j <= s@.len(),
{
    let first = match lit_or_esc(s, i) {
        Some(p) => p,
        None => {
            return None;
        },
    };
    let mut cur = first.0;
    let mut acc = first.1;
    proof {
        lemma_lit_or_esc_bounds(s@, i as int);
    }
    loop
        invariant
            i < cur <= s@.len(),
            match spec_cwe(s@, cur as int) {
                Some((j2, v2)) => spec_cwe(s@, i as int) == Some((j2, acc@ + v2)),
                None => spec_cwe(s@, i as int) == Some((cur as int, acc@)),
            },
        decreases s@.len() - cur,
    {
        match lit_or_esc(s, cur) {
            Some((j, mut v)) => {
                proof {
                    lemma_lit_or_esc_bounds(s@, cur as int);
                }
                let ghost acc0 = acc@;
                let ghost v0 = v@;
                acc.append(&mut v);
                proof {
                    assert(acc@ =~= acc0 + v0);
                    if spec_cwe(s@, j as int) is Some {
                        let p2 = spec_cwe(s@, j as int)->0;
                        assert(acc0 + (v0 + p2.1) =~= (acc0 + v0) + p2.1);
                    }
                }
                cur = j;
            },
            None => {
                return Some((cur, acc));
            },
        }
    }
}

/// A quoted string: its decoded content, or empty between bare quotes.
pub open spec fn spec_quoted(s: Seq<char>, i: int) -> Option<(int, Seq<char>)> {
    if 0 <= i < s.len() && s[i] == '"' {
        let p = match spec_cwe(s, i + 1) {
            Some(p) => p,
            None => (i + 1, Seq::empty()),
        };
        if p.0 < s.len() && s[p.0] == '"' {
            Some((p.0 + 1, p.1))
        } else {
            None
        }
    } else {
        None
    }
}

/// Parses a quoted string.
pub fn quoted(s: &[char], i: usize) -> (r: Option<(usize, Vec<char>)>)
    requires
        i <= s@.len(),
    ensures
        r is Some <==> spec_quoted(s@, i as int) is Some,
        r matches Some((j, v)) ==> spec_quoted(s@, i as int) matches Some(p) && p.0 == j as int
            && p.1 == v@ && i < j <= s@.len(),
{
    if i < s.len() && s[i] == '"' {
        let (j, v) = match content_with_escape(s, i + 1) {
            Some(p) => p,
            None => (i + 1, Vec::new()),
        };
        if j < s.len() && s[j] == '"' {
            Some((j + 1, v))
        } else {
            None
        }
    } else {
        None
    }
}

/// A quoted string or one unquoted word.
pub open spec fn spec_qop(s: Seq<char>, i: int) -> Option<(int, Seq<char>)> {
    match spec_quoted(s, i) {
        Some(p) => Some(p),
        None => {
            if 0 <= i < s.len() && is_word_char(s[i]) {
                Some((run_end(3, s, i), s.subrange(i, run_end(3, s, i))))
            } else {
                None
            }
        },
    }
}

/// Parses a quoted string or a word.
pub fn quoted_or_plain(s: &[char], i: usize) -> (r: Option<(usize, Vec<char>)>)
    requires
        i <= s@.len(),
    ensures
        r is Some <==> spec_qop(s@, i as int) is Some,
        r matches Some((j, v)) ==> spec_qop(s@, i as int) matches Some(p) && p.0 == j as int && p.1
            == v@ && i < j <= s@.len(),
{
    match quoted(s, i) {
        Some(p) => Some(p),
        None => {
            if i < s.len() && class_ok_x(3, s[i]) {
                let j = scan(3, s, i);
                proof {
                    lemma_run_end(3, s@, i as int);
                    assert(run_end(3, s@, i as int) == run_end(3, s@, i + 1));
                }
                Some((j, sub_chars(s, i, j)))
            } else {
                None
            }
        },
    }
}

/// After one argument ended at `j`: the further arguments reachable
/// over whitespace, and where the list ends.  Whitespace not followed by
/// another argument is left unread.
pub open spec fn varg_rest(s: Seq<char>, j: int) -> (int, Seq<Seq<char>>)
    decreases s.len() - j,
{
    let sp = run_end(0, s, j);
    if sp > j && sp <= s.len() && spec_qop(s, sp) is Some {
        let p = spec_qop(s, sp)->0;
        if sp < p.0 <= s.len() {
            let rest = varg_rest(s, p.0);
            (rest.0, seq![p.1] + rest.1)
        } else {
            (j, Seq::empty())
        }
    } else {
        (j, Seq::empty())
    }
}

/// One or more arguments separated by whitespace.
pub open spec fn spec_varg(s: Seq<char>, i: int) -> Option<(int, Seq<Seq<char>>)> {
    match spec_qop(s, i) {
        None => None,
        Some((j, w)) => {
            let rest = varg_rest(s, j);
            Some((rest.0, seq![w] + rest.1))
        },
    }
}

/// Parses a whitespace-separated argument list.
pub fn varg(s: &[char], i: usize) -> (r: Option<(usize, Vec<Vec<char>>)>)
    requires
        i <= s@.len(),
    ensures
        r is Some <==> spec_varg(s@, i as int) is Some,
        r matches Some((j, v)) ==> spec_varg(s@, i as int) matches Some(p) && p.0 == j as int
            && p.1 == crate::conf::words_view(v@) && i < j <= s@.len(),
{
    let first = match quoted_or_plain(s, i) {
        Some(p) => p,
        None => {
            return None;
        },
    };
    let mut cur = first.0;
    let mut acc: Vec<Vec<char>> = Vec::new();
    acc.push(first.1);
    proof {
        assert(crate::conf::words_view(acc@) =~= seq![first.1@]);
    }
    loop
        invariant
            i < cur <= s@.len(),
            spec_varg(s@, i as int) matches Some(q) && q.0 == varg_rest(s@, cur as int).0 && q.1
                =~= crate::conf::words_view(acc@) + varg_rest(s@, cur as int).1,
        decreases s@.len() - cur,
    {
        let sp = scan(0, s, cur);
        proof {
            lemma_run_end(0, s@, cur as int);
        }
        if sp > cur && sp < s.len() {
            match quoted_or_plain(s, sp) {
                Some((j, w)) => {
                    let ghost acc0 = acc@;
                    acc.push(w);
                    proof {
                        assert(crate::conf::words_view(acc@) =~= crate::conf::words_view(acc0)
                            + seq![w@]);
                        let rest = varg_rest(s@, j as int);
                        assert(crate::conf::words_view(acc0) + (seq![w@] + rest.1)
                            =~= (crate::conf::words_view(acc0) + seq![w@]) + rest.1);
                    }
                    cur = j;
                },
                None => {
                    proof {
                        assert(varg_rest(s@, cur as int) == (cur as int, Seq::<Seq<char>>::empty()));
                        assert(crate::conf::words_view(acc@) + Seq::<Seq<char>>::empty()
                            =~= crate::conf::words_view(acc@));
                    }
                    return Some((cur, acc));
                },
            }
        } else {
            proof {
                if sp == s@.len() {
                    assert(spec_qop(s@, sp as int) is None);
                }
                assert(varg_rest(s@, cur as int) == (cur as int, Seq::<Seq<char>>::empty()));
                assert(crate::conf::words_view(acc@) + Seq::<Seq<char>>::empty()
                    =~= crate::conf::words_view(acc@));
            }
            return Some((cur, acc));
        }
    }
}

/// One raw argument piece: a quoted string or a run of plain characters.
pub open spec fn spec_arg1(s: Seq<char>, i: int) -> Option<int> {
    match spec_quoted(s, i) {
        Some((j, _)) => Some(j),
        None => {
            if 0 <= i < s.len() && is_arg_char(s[i]) {
                Some(run_end(4, s, i))
            } else {
                None
            }
        },
    }
}

/// Parses one raw argument piece, returning where it ends.
pub fn arg1(s: &[char], i: usize) -> (r: Option<usize>)
    requires
        i <= s@.len(),
    ensures
        r is Some <==> spec_arg1(s@, i as int) is Some,
        r matches Some(j) ==> spec_arg1(s@, i as int) == Some(j as int) && i < j <= s@.len(),
{
    match quoted(s, i) {
        Some((j, _)) => Some(j),
        None => {
            if i < s.len() && class_ok_x(4, s[i]) {
                let j = scan(4, s, i);
                proof {
                    lemma_run_end(4, s@, i as int);
                    assert(run_end(4, s@, i as int) == run_end(4, s@, i + 1));
                }
                Some(j)
            } else {
                None
            }
        },
    }
}

/// Where the raw argument string before the next unquoted comma ends.
pub open spec fn args_end(s: Seq<char>, p: int) -> int
    decreases s.len() - p,
{
    match spec_arg1(s, p) {
        Some(j) => {
            if p < j <= s.len() {
                args_end(s, j)
            } else {
                p
            }
        },
        None => p,
    }
}

/// Last position above `lo` after dropping trailing whitespace.
pub open spec fn rtrim(s: Seq<char>, lo: int, hi: int) -> int
    decreases hi - lo,
{
    if lo < hi <= s.len() && is_space(s[hi - 1]) {
        rtrim(s, lo, hi - 1)
    } else {
        hi
    }
}

/// The raw argument string before an unquoted comma: leading whitespace
/// skipped, trailing whitespace trimmed from the value.
pub open spec fn spec_args_str(s: Seq<char>, i: int) -> (int, Seq<char>) {
    let i2 = run_end(0, s, i);
    let j = args_end(s, i2);
    (j, s.subrange(i2, rtrim(s, i2, j)))
}

/// Parses the raw argument string before the next unquoted comma.
pub fn args_str_before_comma(s: &[char], i: usize) -> (r: (usize, Vec<char>))
    requires
        i <= s@.len(),
    ensures
        spec_args_str(s@, i as int).0 == r.0 as int,
        spec_args_str(s@, i as int).1 == r.1@,
        i <= r.0 <= s@.len(),
{
    let i2 = scan(0, s, i);
    proof {
        lemma_run_end(0, s@, i as int);
    }
    let mut j = i2;
    loop
        invariant
            i2 <= j <= s@.len(),
            args_end(s@, i2 as int) == args_end(s@, j as int),
        ensures
            i2 <= j <= s@.len(),
            j == args_end(s@, i2 as int),
        decreases s@.len() - j,
    {
        match arg1(s, j) {
            Some(j2) => {
                j = j2;
            },
            None => {
                break;
            },
        }
    }
    let mut t = j;
    while t > i2 && class_ok_x(0, s[t - 1])
        invariant
            i2 <= t <= j <= s@.len(),
            rtrim(s@, i2 as int, j as int) == rtrim(s@, i2 as int, t as int),
        decreases t,
    {
        t -= 1;
    }
    (j, sub_chars(s, i2, t))
}

/// The views of a list of names.
pub open spec fn names_view(v: Seq<Vec<char>>) -> Seq<Seq<char>> {
    crate::conf::words_view(v)
}

/// Key names from position `p` on, each followed by an optional
/// separator; stops where no further name starts.
pub open spec fn kseq_rest(s: Seq<char>, p: int) -> (int, Seq<Seq<char>>)
    decreases s.len() - p,
{
    match spec_keyname(s, p) {
        None => (p, Seq::empty()),
        Some(j) => {
            let name = s.subrange(p, j);
            let j2 = match spec_seq_sep(s, j) {
                Some((a, _)) => a,
                None => j,
            };
            if p < j2 <= s.len() {
                let rest = kseq_rest(s, j2);
                (rest.0, seq![name] + rest.1)
            } else {
                (j2, seq![name])
            }
        },
    }
}

/// A nonempty sequence of key names with separators.
pub open spec fn spec_kseq(s: Seq<char>, i: int) -> Option<(int, Seq<Seq<char>>)> {
    if spec_keyname(s, i) is Some {
        Some(kseq_rest(s, i))
    } else {
        None
    }
}

/// Parses the sequence of key names of a binding.
pub fn keyname_seq(s: &[char], i: usize) -> (r: Option<(usize, Vec<Vec<char>>)>)
    requires
        i <= s@.len(),
    ensures
        r is Some <==> spec_kseq(s@, i as int) is Some,
        r matches Some((j, v)) ==> spec_kseq(s@, i as int) matches Some(p) && p.0 == j as int
            && p.1 == names_view(v@) && i <= j <= s@.len(),
{
    if keyname(s, i).is_none() {
        return None;
    }
    let mut cur = i;
    let mut acc: Vec<Vec<char>> = Vec::new();
    proof {
        assert(names_view(acc@) =~= Seq::<Seq<char>>::empty());
        assert(names_view(acc@) + kseq_rest(s@, i as int).1 =~= kseq_rest(s@, i as int).1);
    }
    loop
        invariant
            i <= cur <= s@.len(),
            spec_kseq(s@, i as int) matches Some(q) && q.0 == kseq_rest(s@, cur as int).0 && q.1
                =~= names_view(acc@) + kseq_rest(s@, cur as int).1,
        decreases s@.len() - cur,
    {
        match keyname(s, cur) {
            None => {
                proof {
                    assert(kseq_rest(s@, cur as int) == (cur as int, Seq::<Seq<char>>::empty()));
                    assert(names_view(acc@) + Seq::<Seq<char>>::empty() =~= names_view(acc@));
                }
                return Some((cur, acc));
            },
            Some((j, name)) => {
                let j2 = match seq_sep(s, j) {
                    Some((a, _)) => a,
                    None => j,
                };
                let ghost acc0 = acc@;
                acc.push(name);
                proof {
                    assert(names_view(acc@) =~= names_view(acc0) + seq![name@]);
                    let rest = kseq_rest(s@, j2 as int);
                    assert(names_view(acc0) + (seq![name@] + rest.1) =~= (names_view(acc0)
                        + seq![name@]) + rest.1);
                }
                cur = j2;
            },
        }
    }
}

/// Further names of one key combination, each reached over `+`.
pub open spec fn kc_rest(s: Seq<char>, j: int) -> (int, Seq<Seq<char>>)
    decreases s.len() - j,
{
    let sp = run_end(0, s, j);
    if 0 <= sp < s.len() && s[sp] == '+' {
        let p2 = run_end(0, s, sp + 1);
        match spec_keyname(s, p2) {
            Some(j2) => {
                if j < j2 <= s.len() {
                    let rest = kc_rest(s, j2);
                    (rest.0, seq![s.subrange(p2, j2)] + rest.1)
                } else {
                    (j, Seq::empty())
                }
            },
            None => (j, Seq::empty()),
        }
    } else {
        (j, Seq::empty())
    }
}

/// One key combination: names joined by `+`.
pub open spec fn spec_key_combi(s: Seq<char>, i: int) -> Option<(int, Seq<Seq<char>>)> {
    match spec_keyname(s, i) {
        None => None,
        Some(j) => {
            let rest = kc_rest(s, j);
            Some((rest.0, seq![s.subrange(i, j)] + rest.1))
        },
    }
}

/// Parses one key combination.
pub fn key_combination(s: &[char], i: usize) -> (r: Option<(usize, Vec<Vec<char>>)>)
    requires
        i <= s@.len(),
    ensures
        r is Some <==> spec_key_combi(s@, i as int) is Some,
        r matches Some((j, v)) ==> spec_key_combi(s@, i as int) matches Some(p) && p.0 == j as int
            && p.1 == names_view(v@) && i < j <= s@.len(),
{
    let first = match keyname(s, i) {
        Some(p) => p,
        None => {
            return None;
        },
    };
    let mut cur = first.0;
    let mut acc: Vec<Vec<char>> = Vec::new();
    acc.push(first.1);
    proof {
        assert(names_view(acc@) =~= seq![s@.subrange(i as int, cur as int)]);
    }
    loop
        invariant
            i < cur <= s@.len(),
            spec_key_combi(s@, i as int) matches Some(q) && q.0 == kc_rest(s@, cur as int).0
                && q.1 =~= names_view(acc@) + kc_rest(s@, cur as int).1,
        decreases s@.len() - cur,
    {
        let sp = scan(0, s, cur);
        proof {
            lemma_run_end(0, s@, cur as int);
        }
        if sp < s.len() && s[sp] == '+' {
            let p2 = scan(0, s, sp + 1);
            proof {
                lemma_run_end(0, s@, sp + 1);
            }
            match keyname(s, p2) {
                Some((j2, name)) => {
                    let ghost acc0 = acc@;
                    acc.push(name);
                    proof {
                        assert(names_view(acc@) =~= names_view(acc0) + seq![name@]);
                        let rest = kc_rest(s@, j2 as int);
                        assert(names_view(acc0) + (seq![name@] + rest.1) =~= (names_view(acc0)
                            + seq![name@]) + rest.1);
                    }
                    cur = j2;
                },
                None => {
                    proof {
                        assert(kc_rest(s@, cur as int) == (
                            cur as int,
                            Seq::<Seq<char>>::empty(),
                        ));
                        assert(names_view(acc@) + Seq::<Seq<char>>::empty() =~= names_view(acc@));
                    }
                    return Some((cur, acc));
                },
            }
        } else {
            proof {
                assert(kc_rest(s@, cur as int) == (cur as int, Seq::<Seq<char>>::empty()));
                assert(names_view(acc@) + Seq::<Seq<char>>::empty() =~= names_view(acc@));
            }
            return Some((cur, acc));
        }
    }
}

/// Further combinations of a keystroke action, over whitespace.
pub open spec fn kcl_rest(s: Seq<char>, j: int) -> (int, Seq<Seq<Seq<char>>>)
    decreases s.len() - j,
{
    let sp = run_end(0, s, j);
    if sp > j && sp <= s.len() && spec_key_combi(s, sp) is Some {
        let p = spec_key_combi(s, sp)->0;
        if sp < p.0 <= s.len() {
            let rest = kcl_rest(s, p.0);
            (rest.0, seq![p.1] + rest.1)
        } else {
            (j, Seq::empty())
        }
    } else {
        (j, Seq::empty())
    }
}

/// One or more key combinations separated by whitespace.
pub open spec fn spec_kcl(s: Seq<char>, i: int) -> Option<(int, Seq<Seq<Seq<char>>>)> {
    match spec_key_combi(s, i) {
        None => None,
        Some((j, c)) => {
            let rest = kcl_rest(s, j);
            Some((rest.0, seq![c] + rest.1))
        },
    }
}

/// The views of a list of combinations.
pub open spec fn combos_view(v: Seq<Vec<Vec<char>>>) -> Seq<Seq<Seq<char>>> {
    Seq::new(v.len(), |k: int| names_view(v[k]@))
}

/// Parses the combination list of a keystroke action.
pub fn key_combi_list(s: &[char], i: usize) -> (r: Option<(usize, Vec<Vec<Vec<char>>>)>)
    requires
        i <= s@.len(),
    ensures
        r is Some <==> spec_kcl(s@, i as int) is Some,
        r matches Some((j, v)) ==> spec_kcl(s@, i as int) matches Some(p) && p.0 == j as int
            && p.1 == combos_view(v@) && i < j <= s@.len(),
{
    let first = match key_combination(s, i) {
        Some(p) => p,
        None => {
            return None;
        },
    };
    let mut cur = first.0;
    let mut acc: Vec<Vec<Vec<char>>> = Vec::new();
    let ghost first_combo = names_view(first.1@);
    acc.push(first.1);
    proof {
        assert(combos_view(acc@) =~= seq![first_combo]);
    }
    loop
        invariant
            i < cur <= s@.len(),
            spec_kcl(s@, i as int) matches Some(q) && q.0 == kcl_rest(s@, cur as int).0 && q.1
                =~= combos_view(acc@) + kcl_rest(s@, cur as int).1,
        decreases s@.len() - cur,
    {
        let sp = scan(0, s, cur);
        proof {
            lemma_run_end(0, s@, cur as int);
        }
        if sp > cur && sp < s.len() {
            match key_combination(s, sp) {
                Some((j, c)) => {
                    let ghost acc0 = acc@;
                    let ghost cv = names_view(c@);
                    acc.push(c);
                    proof {
                        assert(combos_view(acc@) =~= combos_view(acc0) + seq![cv]);
                        let rest = kcl_rest(s@, j as int);
                        assert(combos_view(acc0) + (seq![cv] + rest.1) =~= (combos_view(acc0)
                            + seq![cv]) + rest.1);
                    }
                    cur = j;
                },
                None => {
                    proof {
                        assert(kcl_rest(s@, cur as int) == (
                            cur as int,
                            Seq::<Seq<Seq<char>>>::empty(),
                        ));
                        assert(combos_view(acc@) + Seq::<Seq<Seq<char>>>::empty() =~= combos_view(
                            acc@,
                        ));
                    }
                    return Some((cur, acc));
                },
            }
        } else {
            proof {
                if sp == s@.len() {
                    assert(spec_key_combi(s@, sp as int) is None);
                }
                assert(kcl_rest(s@, cur as int) == (cur as int, Seq::<Seq<Seq<char>>>::empty()));
                assert(combos_view(acc@) + Seq::<Seq<Seq<char>>>::empty() =~= combos_view(acc@));
            }
            return Some((cur, acc));
        }
    }
}

/// The word `text` at `i`.
pub open spec fn has_text_tag(s: Seq<char>, i: int) -> bool {
    0 <= i && i + 4 <= s.len() && s[i] == 't' && s[i + 1] == 'e' && s[i + 2] == 'x' && s[i + 3]
        == 't'
}

/// The word `key` at `i`, followed by whitespace.
pub open spec fn has_key_tag(s: Seq<char>, i: int) -> bool {
    0 <= i && i + 4 <= s.len() && s[i] == 'k' && s[i + 1] == 'e' && s[i + 2] == 'y' && is_space(
        s[i + 3],
    )
}

/// The word `mouse` at `i`.
pub open spec fn has_mouse_tag(s: Seq<char>, i: int) -> bool {
    0 <= i && i + 5 <= s.len() && s[i] == 'm' && s[i + 1] == 'o' && s[i + 2] == 'u' && s[i + 3]
        == 's' && s[i + 4] == 'e'
}

/// The word `repeat` at `i`.
pub open spec fn has_repeat_tag(s: Seq<char>, i: int) -> bool {
    0 <= i && i + 6 <= s.len() && s[i] == 'r' && s[i + 1] == 'e' && s[i + 2] == 'p' && s[i + 3]
        == 'e' && s[i + 4] == 'a' && s[i + 5] == 't'
}

/// The word `exec` at `i`, followed by whitespace.
pub open spec fn has_exec_tag(s: Seq<char>, i: int) -> bool {
    0 <= i && i + 5 <= s.len() && s[i] == 'e' && s[i + 1] == 'x' && s[i + 2] == 'e' && s[i + 3]
        == 'c' && is_space(s[i + 4])
}

/// The numeric value of the first `k` characters, read as digits.
pub open spec fn digits_val(raw: Seq<char>, k: int) -> int
    decreases k,
{
    if k <= 0 {
        0
    } else {
        digits_val(raw, k - 1) * 10 + (raw[k - 1] as int - 48)
    }
}

/// Reading one more digit never shrinks the value.
proof fn lemma_digits_nonneg(raw: Seq<char>, k: int)
    requires
        0 <= k <= raw.len(),
        forall|t: int| 0 <= t < k ==> is_digit(#[trigger] raw[t]),
    ensures
        digits_val(raw, k) >= 0,
    decreases k,
{
    if k > 0 {
        lemma_digits_nonneg(raw, k - 1);
        assert(digits_val(raw, k - 1) * 10 >= 0) by (nonlinear_arith)
            requires
                digits_val(raw, k - 1) >= 0,
        ;
        assert(raw[k - 1] as int - 48 >= 0);
    }
}

/// Reading one more digit never shrinks the value.
proof fn lemma_digits_monotone(raw: Seq<char>, k1: int, k2: int)
    requires
        0 <= k1 <= k2 <= raw.len(),
        forall|t: int| 0 <= t < k2 ==> is_digit(#[trigger] raw[t]),
    ensures
        digits_val(raw, k1) <= digits_val(raw, k2),
        digits_val(raw, k1) >= 0,
    decreases k2 - k1,
{
    lemma_digits_nonneg(raw, k1);
    if k1 < k2 {
        lemma_digits_monotone(raw, k1, k2 - 1);
        assert(raw[k2 - 1] as int - 48 >= 0);
        assert(digits_val(raw, k2 - 1) * 10 >= digits_val(raw, k2 - 1)) by (nonlinear_arith)
            requires
                digits_val(raw, k2 - 1) >= 0,
        ;
    }
}

/// A decimal byte: one or more leading digits whose value fits.
pub open spec fn spec_parse_u8(raw: Seq<char>) -> Option<u8> {
    let d = run_end(6, raw, 0);
    if d == 0 {
        None
    } else if digits_val(raw, d) <= 255 {
        Some(digits_val(raw, d) as u8)
    } else {
        None
    }
}

/// Parses the leading digits of a raw argument as a byte.
pub fn parse_u8(raw: &[char]) -> (r: Option<u8>)
    ensures
        r == spec_parse_u8(raw@),
{
    let d = scan(6, raw, 0);
    proof {
        lemma_run_end(6, raw@, 0);
    }
    if d == 0 {
        return None;
    }
    let mut acc: u32 = 0;
    let mut t: usize = 0;
    while t < d
        invariant
            t <= d,
            d == run_end(6, raw@, 0),
            0 < d <= raw@.len(),
            forall|u: int| 0 <= u < d ==> is_digit(#[trigger] raw@[u]),
            acc == digits_val(raw@, t as int),
            acc <= 255,
        decreases d - t,
    {
        let dig = raw[t] as u32;
        proof {
            assert(is_digit(raw@[t as int]));
            assert(48 <= dig <= 57);
        }
        let next = acc * 10 + (dig - 48);
        if next > 255 {
            proof {
                lemma_digits_monotone(raw@, t + 1, d as int);
            }
            return None;
        }
        acc = next;
        t += 1;
    }
    proof {
        lemma_digits_monotone(raw@, d as int, d as int);
    }
    Some(acc as u8)
}

/// A `text` action: the raw argument, unquoted if it was quoted, else
/// verbatim to the end of the line.
pub open spec fn spec_action_text(s: Seq<char>, i: int) -> Option<(int, Seq<char>)> {
    if has_text_tag(s, i) {
        let p = spec_args_str(s, i + 4);
        let v = match spec_quoted(p.1, 0) {
            Some((_, v)) => v,
            None => p.1.subrange(0, run_end(5, p.1, 0)),
        };
        Some((p.0, v))
    } else {
        None
    }
}

/// Parses a `text` action.
pub fn action_text_arg(s: &[char], i: usize) -> (r: Option<(usize, Vec<char>)>)
    requires
        i <= s@.len(),
    ensures
        r is Some <==> spec_action_text(s@, i as int) is Some,
        r matches Some((j, v)) ==> spec_action_text(s@, i as int) matches Some(p) && p.0
            == j as int && p.1 == v@ && i <= j <= s@.len(),
{
    if s.len() >= 4 && i <= s.len() - 4 && s[i] == 't' && s[i + 1] == 'e' && s[i + 2] == 'x' && s[i
        + 3] == 't' {
        let (j, raw) = args_str_before_comma(s, i + 4);
        match quoted(raw.as_slice(), 0) {
            Some((_, v)) => Some((j, v)),
            None => {
                let e = scan(5, raw.as_slice(), 0);
                proof {
                    lemma_run_end(5, raw@, 0);
                }
                let v = sub_chars(raw.as_slice(), 0, e);
                Some((j, v))
            },
        }
    } else {
        None
    }
}

/// A `mouse` or `repeat` action: the tag and a byte argument.
pub open spec fn spec_action_num(s: Seq<char>, i: int, after: int) -> Option<(int, u8)> {
    let p = spec_args_str(s, after);
    match spec_parse_u8(p.1) {
        Some(n) => Some((p.0, n)),
        None => None,
    }
}

/// Parses a `mouse` action into its button number.
pub fn action_mouse_click(s: &[char], i: usize) -> (r: Option<(usize, u8)>)
    requires
        i <= s@.len(),
    ensures
        r is Some <==> (has_mouse_tag(s@, i as int) && spec_action_num(s@, i as int, i + 5)
            is Some),
        r matches Some((j, n)) ==> spec_action_num(s@, i as int, i + 5) == Some((j as int, n)) && i
            <= j <= s@.len(),
{
    if s.len() >= 5 && i <= s.len() - 5 && s[i] == 'm' && s[i + 1] == 'o' && s[i + 2] == 'u' && s[i
        + 3] == 's' && s[i + 4] == 'e' {
        let (j, raw) = args_str_before_comma(s, i + 5);
        match parse_u8(raw.as_slice()) {
            Some(n) => Some((j, n)),
            None => None,
        }
    } else {
        None
    }
}

/// Parses a `repeat` action into its count.
pub fn action_repeat(s: &[char], i: usize) -> (r: Option<(usize, u8)>)
    requires
        i <= s@.len(),
    ensures
        r is Some <==> (has_repeat_tag(s@, i as int) && spec_action_num(s@, i as int, i + 6)
            is Some),
        r matches Some((j, n)) ==> spec_action_num(s@, i as int, i + 6) == Some((j as int, n)) && i
            <= j <= s@.len(),
{
    if s.len() >= 6 && i <= s.len() - 6 && s[i] == 'r' && s[i + 1] == 'e' && s[i + 2] == 'p' && s[i
        + 3] == 'e' && s[i + 4] == 'a' && s[i + 5] == 't' {
        let (j, raw) = args_str_before_comma(s, i + 6);
        match parse_u8(raw.as_slice()) {
            Some(n) => Some((j, n)),
            None => None,
        }
    } else {
        None
    }
}

/// An `exec` action: whitespace, then the argument words.
pub open spec fn spec_action_exec(s: Seq<char>, i: int) -> Option<(int, Seq<Seq<char>>)> {
    if has_exec_tag(s, i) {
        spec_varg(s, run_end(0, s, i + 4))
    } else {
        None
    }
}

/// Parses an `exec` action into its argument words.
pub fn action_exec(s: &[char], i: usize) -> (r: Option<(usize, Vec<Vec<char>>)>)
    requires
        i <= s@.len(),
    ensures
        r is Some <==> spec_action_exec(s@, i as int) is Some,
        r matches Some((j, v)) ==> spec_action_exec(s@, i as int) matches Some(p) && p.0
            == j as int && p.1 == crate::conf::words_view(v@) && i < j <= s@.len(),
{
    if s.len() >= 5 && i <= s.len() - 5 && s[i] == 'e' && s[i + 1] == 'x' && s[i + 2] == 'e' && s[i
        + 3] == 'c' && class_ok_x(0, s[i + 4]) {
        let sp = scan(0, s, i + 4);
        proof {
            lemma_run_end(0, s@, i + 4);
        }
        varg(s, sp)
    } else {
        None
    }
}

/// A `key` action list: whitespace, then one or more combinations.
pub open spec fn spec_action_key(s: Seq<char>, i: int) -> Option<(int, Seq<Seq<Seq<char>>>)> {
    if has_key_tag(s, i) {
        spec_kcl(s, run_end(0, s, i + 3))
    } else {
        None
    }
}

/// Parses a `key` action into its combinations.
pub fn action_key_combi_multi(s: &[char], i: usize) -> (r: Option<(usize, Vec<Vec<Vec<char>>>)>)
    requires
        i <= s@.len(),
    ensures
        r is Some <==> spec_action_key(s@, i as int) is Some,
        r matches Some((j, v)) ==> spec_action_key(s@, i as int) matches Some(p) && p.0
            == j as int && p.1 == combos_view(v@) && i < j <= s@.len(),
{
    if s.len() >= 4 && i <= s.len() - 4 && s[i] == 'k' && s[i + 1] == 'e' && s[i + 2] == 'y'
        && class_ok_x(0, s[i + 3]) {
        let sp = scan(0, s, i + 3);
        proof {
            lemma_run_end(0, s@, i + 3);
        }
        key_combi_list(s, sp)
    } else {
        None
    }
}

/// The flat view of a parsed action: kind, text, combination names,
/// number, argument words.
pub open spec fn av(a: Action<Vec<char>>) -> (int, Seq<char>, Seq<Seq<char>>, u8, Seq<Seq<char>>) {
    match a {
        Action::Text(t) => (0, t@, Seq::empty(), 0, Seq::empty()),
        Action::KeyStroke(ns) => (1, Seq::empty(), names_view(ns@), 0, Seq::empty()),
        Action::MouseClick(n) => (2, Seq::empty(), Seq::empty(), n, Seq::empty()),
        Action::Repeat(n) => (3, Seq::empty(), Seq::empty(), n, Seq::empty()),
        Action::Exec(ws) => (4, Seq::empty(), Seq::empty(), 0, crate::conf::words_view(ws@)),
    }
}

/// One action group before a comma: the kinds are tried in a fixed
/// order, and a `key` group yields one keystroke action per combination.
pub open spec fn spec_abc(s: Seq<char>, i: int) -> Option<
    (int, Seq<(int, Seq<char>, Seq<Seq<char>>, u8, Seq<Seq<char>>)>),
> {
    if spec_action_text(s, i) is Some {
        let p = spec_action_text(s, i)->0;
        Some((p.0, seq![(0int, p.1, Seq::<Seq<char>>::empty(), 0u8, Seq::<Seq<char>>::empty())]))
    } else if spec_action_key(s, i) is Some {
        let p = spec_action_key(s, i)->0;
        Some(
            (
                p.0,
                Seq::new(
                    p.1.len(),
                    |k: int|
                        (1int, Seq::<char>::empty(), p.1[k], 0u8, Seq::<Seq<char>>::empty()),
                ),
            ),
        )
    } else if spec_action_exec(s, i) is Some {
        let p = spec_action_exec(s, i)->0;
        Some((p.0, seq![(4int, Seq::<char>::empty(), Seq::<Seq<char>>::empty(), 0u8, p.1)]))
    } else if has_mouse_tag(s, i) && spec_action_num(s, i, i + 5) is Some {
        let p = spec_action_num(s, i, i + 5)->0;
        Some(
            (
                p.0,
                seq![
                    (2int, Seq::<char>::empty(), Seq::<Seq<char>>::empty(), p.1, Seq::<
                        Seq<char>,
                    >::empty()),
                ],
            ),
        )
    } else if has_repeat_tag(s, i) && spec_action_num(s, i, i + 6) is Some {
        let p = spec_action_num(s, i, i + 6)->0;
        Some(
            (
                p.0,
                seq![
                    (3int, Seq::<char>::empty(), Seq::<Seq<char>>::empty(), p.1, Seq::<
                        Seq<char>,
                    >::empty()),
                ],
            ),
        )
    } else {
        None
    }
}

/// The views of a list of parsed actions.
pub open spec fn avs(v: Seq<Action<Vec<char>>>) -> Seq<
    (int, Seq<char>, Seq<Seq<char>>, u8, Seq<Seq<char>>),
> {
    Seq::new(v.len(), |k: int| av(v[k]))
}

/// Parses one action group.
pub fn actions_before_comma(s: &[char], i: usize) -> (r: Option<
    (usize, Vec<Action<Vec<char>>>),
>)
    requires
        i <= s@.len(),
    ensures
        r is Some <==> spec_abc(s@, i as int) is Some,
        r matches Some((j, v)) ==> spec_abc(s@, i as int) matches Some(p) && p.0 == j as int
            && p.1 == avs(v@) && i <= j <= s@.len(),
{
    if let Some((j, txt)) = action_text_arg(s, i) {
        let mut v: Vec<Action<Vec<char>>> = Vec::new();
        v.push(Action::Text(txt));
        proof {
            assert(avs(v@) =~= (spec_abc(s@, i as int)->0).1);
        }
        return Some((j, v));
    }
    if let Some((j, combos)) = action_key_combi_multi(s, i) {
        let mut v: Vec<Action<Vec<char>>> = Vec::new();
        let mut k: usize = 0;
        while k < combos.len()
            invariant
                k <= combos@.len(),
                v@.len() == k,
                forall|t: int|
                    0 <= t < k ==> av(#[trigger] v@[t]) == (
                        1int,
                        Seq::<char>::empty(),
                        combos_view(combos@)[t],
                        0u8,
                        Seq::<Seq<char>>::empty(),
                    ),
            decreases combos@.len() - k,
        {
            let c = crate::conf::copy_words(&combos[k]);
            proof {
                assert(names_view(c@) =~= combos_view(combos@)[k as int]);
            }
            v.push(Action::KeyStroke(c));
            k += 1;
        }
        proof {
            assert(avs(v@) =~= (spec_abc(s@, i as int)->0).1);
        }
        return Some((j, v));
    }
    if let Some((j, words)) = action_exec(s, i) {
        let mut v: Vec<Action<Vec<char>>> = Vec::new();
        v.push(Action::Exec(words));
        proof {
            assert(avs(v@) =~= (spec_abc(s@, i as int)->0).1);
        }
        return Some((j, v));
    }
    if let Some((j, n)) = action_mouse_click(s, i) {
        let mut v: Vec<Action<Vec<char>>> = Vec::new();
        v.push(Action::MouseClick(n));
        proof {
            assert(avs(v@) =~= (spec_abc(s@, i as int)->0).1);
        }
        return Some((j, v));
    }
    if let Some((j, n)) = action_repeat(s, i) {
        let mut v: Vec<Action<Vec<char>>> = Vec::new();
        v.push(Action::Repeat(n));
        proof {
            assert(avs(v@) =~= (spec_abc(s@, i as int)->0).1);
        }
        return Some((j, v));
    }
    None
}

/// After one action group at `j`: its trailing whitespace and optional
/// comma, then any further groups.
pub open spec fn asc_rest(s: Seq<char>, j: int) -> (int, Seq<
    (int, Seq<char>, Seq<Seq<char>>, u8, Seq<Seq<char>>),
>)
    decreases s.len() - j,
{
    let sp = run_end(0, s, j);
    let j2 = if 0 <= sp < s.len() && s[sp] == ',' {
        run_end(0, s, sp + 1)
    } else {
        sp
    };
    if j < j2 <= s.len() && spec_abc(s, j2) is Some {
        let p = spec_abc(s, j2)->0;
        if j2 <= p.0 <= s.len() {
            let rest = asc_rest(s, p.0);
            (rest.0, p.1 + rest.1)
        } else {
            (j2, p.1)
        }
    } else if 0 <= j2 <= s.len() {
        (j2, Seq::empty())
    } else {
        (j, Seq::empty())
    }
}

/// One or more action groups separated by commas; each group's trailing
/// whitespace and comma are consumed with it.
pub open spec fn spec_asc(s: Seq<char>, i: int) -> Option<
    (int, Seq<(int, Seq<char>, Seq<Seq<char>>, u8, Seq<Seq<char>>)>),
> {
    match spec_abc(s, i) {
        None => None,
        Some((j, acts)) => {
            let rest = asc_rest(s, j);
            Some((rest.0, acts + rest.1))
        },
    }
}

/// Parses the comma-separated action list of a binding.
pub fn actions_separated_by_comma(s: &[char], i: usize) -> (r: Option<
    (usize, Vec<Action<Vec<char>>>),
>)
    requires
        i <= s@.len(),
    ensures
        r is Some <==> spec_asc(s@, i as int) is Some,
        r matches Some((j, v)) ==> spec_asc(s@, i as int) matches Some(p) && p.0 == j as int
            && p.1 == avs(v@) && i <= j <= s@.len(),
{
    let first = match actions_before_comma(s, i) {
        Some(p) => p,
        None => {
            return None;
        },
    };
    let mut cur = first.0;
    let mut acc = first.1;
    loop
        invariant
            i <= cur <= s@.len(),
            spec_asc(s@, i as int) matches Some(q) && q.0 == asc_rest(s@, cur as int).0 && q.1
                =~= avs(acc@) + asc_rest(s@, cur as int).1,
        decreases s@.len() - cur,
    {
        let sp = scan(0, s, cur);
        proof {
            lemma_run_end(0, s@, cur as int);
        }
        let j2 = if sp < s.len() && s[sp] == ',' {
            let a = scan(0, s, sp + 1);
            proof {
                lemma_run_end(0, s@, sp + 1);
            }
            a
        } else {
            sp
        };
        if j2 > cur {
            match actions_before_comma(s, j2) {
                Some((j3, mut more)) => {
                    let ghost acc0 = acc@;
                    let ghost more0 = more@;
                    acc.append(&mut more);
                    proof {
                        assert(avs(acc@) =~= avs(acc0) + avs(more0));
                        let rest = asc_rest(s@, j3 as int);
                        assert(avs(acc0) + (avs(more0) + rest.1) =~= (avs(acc0) + avs(more0))
                            + rest.1);
                    }
                    cur = j3;
                },
                None => {
                    proof {
                        assert(asc_rest(s@, cur as int).0 == j2 as int);
                        assert(asc_rest(s@, cur as int).1 =~= Seq::<
                            (int, Seq<char>, Seq<Seq<char>>, u8, Seq<Seq<char>>),
                        >::empty());
                        assert(avs(acc@) + asc_rest(s@, cur as int).1 =~= avs(acc@));
                    }
                    return Some((j2, acc));
                },
            }
        } else {
            proof {
                assert(asc_rest(s@, cur as int).0 == j2 as int);
                assert(avs(acc@) + asc_rest(s@, cur as int).1 =~= avs(acc@));
            }
            return Some((j2, acc));
        }
    }
}

/// A binding: a key sequence, `=`, and its action list.
pub open spec fn spec_assignment(s: Seq<char>, i: int) -> Option<
    (int, Seq<Seq<char>>, Seq<(int, Seq<char>, Seq<Seq<char>>, u8, Seq<Seq<char>>)>),
> {
    match spec_kseq(s, i) {
        None => None,
        Some((j, names)) => {
            if 0 <= j < s.len() && s[j] == '=' {
                let j2 = run_end(0, s, j + 1);
                match spec_asc(s, j2) {
                    None => None,
                    Some((j3, acts)) => Some((j3, names, acts)),
                }
            } else {
                None
            }
        },
    }
}

/// Parses one binding.
pub fn assignment(s: &[char], i: usize) -> (r: Option<
    (usize, Vec<Vec<char>>, Vec<Action<Vec<char>>>),
>)
    requires
        i <= s@.len(),
    ensures
        r is Some <==> spec_assignment(s@, i as int) is Some,
        r matches Some((j, ns, v)) ==> spec_assignment(s@, i as int) matches Some(p) && p.0
            == j as int && p.1 == names_view(ns@) && p.2 == avs(v@) && i <= j <= s@.len(),
{
    let (j, names) = match keyname_seq(s, i) {
        Some(p) => p,
        None => {
            return None;
        },
    };
    if j < s.len() && s[j] == '=' {
        let j2 = scan(0, s, j + 1);
        proof {
            lemma_run_end(0, s@, j + 1);
        }
        match actions_separated_by_comma(s, j2) {
            Some((j3, acts)) => Some((j3, names, acts)),
            None => None,
        }
    } else {
        None
    }
}

/// A whole line: optional whitespace, an optional binding, an optional
/// comment, and nothing else.  `None` when the line cannot be read at
/// all; `Some(None)` for a line with no binding.
pub open spec fn spec_assignment_line(s: Seq<char>) -> Option<
    Option<(Seq<Seq<char>>, Seq<(int, Seq<char>, Seq<Seq<char>>, u8, Seq<Seq<char>>)>)>,
> {
    let i2 = run_end(0, s, 0);
    let j = match spec_assignment(s, i2) {
        Some((j, _, _)) => j,
        None => i2,
    };
    let j3 = if 0 <= j < s.len() && s[j] == '#' {
        run_end(5, s, j)
    } else {
        j
    };
    if j3 == s.len() {
        match spec_assignment(s, i2) {
            Some((_, names, acts)) => Some(Some((names, acts))),
            None => Some(None),
        }
    } else {
        None
    }
}

/// Parses one configuration line.
pub fn assignment_line(s: &[char]) -> (r: Option<
    Option<(Vec<Vec<char>>, Vec<Action<Vec<char>>>)>,
>)
    ensures
        r is Some <==> spec_assignment_line(s@) is Some,
        r matches Some(Some((ns, v))) ==> spec_assignment_line(s@) matches Some(Some(p)) && p.0
            == names_view(ns@) && p.1 == avs(v@),
        r matches Some(None::<(Vec<Vec<char>>, Vec<Action<Vec<char>>>)>)
            ==> spec_assignment_line(s@) matches Some(q) && q is None,
{
    let i2 = scan(0, s, 0);
    proof {
        lemma_run_end(0, s@, 0);
    }
    let asg = assignment(s, i2);
    let j = match &asg {
        Some((j, _, _)) => *j,
        None => i2,
    };
    let j3 = if j < s.len() && s[j] == '#' {
        let e = scan(5, s, j);
        proof {
            lemma_run_end(5, s@, j as int);
        }
        e
    } else {
        j
    };
    if j3 == s.len() {
        match asg {
            Some((_, names, acts)) => Some(Some((names, acts))),
            None => Some(None),
        }
    } else {
        None
    }
}

} // verus!
