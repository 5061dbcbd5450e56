//! The original grammar tests, against the verified parsers.

use kseqi::conf::Action;
use kseqi::parse::{
    action_exec, action_text_arg, actions_separated_by_comma, arg1, args_str_before_comma,
    assignment_line, content_with_escape, escaped_char, key_combi_list, key_combination, keyname,
    keyname_seq, lit_or_esc, not_escape, quoted_or_plain, seq_sep,
};

fn chars(s: &str) -> Vec<char> {
    s.chars().collect()
}

fn string(v: &[char]) -> String {
    v.iter().collect()
}

fn rest(s: &[char], j: usize) -> String {
    s[j..].iter().collect()
}

#[test]
fn nom1() {
    let s = chars("21cZ%1");
    let (j, v) = keyname(&s, 0).unwrap();
    assert_eq!((rest(&s, j), string(&v)), ("%1".to_string(), "21cZ".to_string()));
    let s = chars("N \u{2198} ");
    let (j, v) = keyname(&s, 0).unwrap();
    assert_eq!((rest(&s, j), string(&v)), (" \u{2198} ".to_string(), "N".to_string()));
}

#[test]
fn nom2() {
    let cases = [
        (" \u{2198} ", "", "\u{2198}"),
        ("\u{2198} ", "", "\u{2198}"),
        ("\u{2198}", "", "\u{2198}"),
        (" \u{2197}", "", "\u{2197}"),
        (" ", "", " "),
        ("  ", "", "  "),
    ];
    for (input, rem, val) in cases {
        let s = chars(input);
        let (j, v) = seq_sep(&s, 0).unwrap();
        assert_eq!((rest(&s, j), string(&v)), (rem.to_string(), val.to_string()));
    }
    assert!(seq_sep(&chars(""), 0).is_none());
}

#[test]
fn nom3() {
    let cases = [
        ("N \u{2198} T \u{2198} T \u{2197} N \u{2197} ", vec!["N", "T", "T", "N"]),
        ("N\u{2198} T\u{2198} T\u{2197}", vec!["N", "T", "T"]),
        ("N\u{2198} T\u{2198}T\u{2197} ", vec!["N", "T", "T"]),
        ("M\u{2198} 1\u{2198} 1\u{2197} M\u{2197} ", vec!["M", "1", "1", "M"]),
    ];
    for (input, names) in cases {
        let s = chars(input);
        let (j, v) = keyname_seq(&s, 0).unwrap();
        assert_eq!(rest(&s, j), "".to_string());
        let got: Vec<String> = v.iter().map(|n| string(n)).collect();
        assert_eq!(got, names);
    }
}

#[test]
fn nom4() {
    let s = chars("abc");
    let (j, v) = not_escape(&s, 0).unwrap();
    assert_eq!((rest(&s, j), string(&v)), ("".to_string(), "abc".to_string()));
    let s = chars("kl\\");
    let (j, v) = not_escape(&s, 0).unwrap();
    assert_eq!((rest(&s, j), string(&v)), ("\\".to_string(), "kl".to_string()));
    assert!(not_escape(&chars(""), 0).is_none());
}

#[test]
fn nome() {
    let s = chars(r#"\\"#);
    let (j, c) = escaped_char(&s, 0).unwrap();
    assert_eq!((rest(&s, j), c), ("".to_string(), '\\'));
    let s = chars("\\n");
    let (j, c) = escaped_char(&s, 0).unwrap();
    assert_eq!((rest(&s, j), c), ("".to_string(), '\n'));
    let s = chars("\\\\b");
    let (j, c) = escaped_char(&s, 0).unwrap();
    assert_eq!((rest(&s, j), c), ("b".to_string(), '\\'));
    let s = chars("\\nc");
    let (j, c) = escaped_char(&s, 0).unwrap();
    assert_eq!((rest(&s, j), c), ("c".to_string(), '\n'));
    assert!(escaped_char(&chars(""), 0).is_none());
}

#[test]
fn nom5() {
    let s = chars("abc");
    let (j, v) = lit_or_esc(&s, 0).unwrap();
    assert_eq!((rest(&s, j), string(&v)), ("".to_string(), "abc".to_string()));
    let s = chars("abc\\");
    let (j, v) = lit_or_esc(&s, 0).unwrap();
    assert_eq!((rest(&s, j), string(&v)), ("\\".to_string(), "abc".to_string()));
    let s = chars("\\babc\\");
    let (j, v) = lit_or_esc(&s, 0).unwrap();
    assert_eq!((rest(&s, j), string(&v)), ("abc\\".to_string(), "\u{8}".to_string()));
    assert!(lit_or_esc(&chars(""), 0).is_none());
}

#[test]
fn nom6() {
    assert!(lit_or_esc(&chars(""), 0).is_none());
    let s = chars("abc");
    let (j, v) = lit_or_esc(&s, 0).unwrap();
    assert_eq!((rest(&s, j), string(&v)), ("".to_string(), "abc".to_string()));
    let s = chars("abc");
    let (j, v) = content_with_escape(&s, 0).unwrap();
    assert_eq!((rest(&s, j), string(&v)), ("".to_string(), "abc".to_string()));
    let s = chars("abc\\");
    let (j, v) = content_with_escape(&s, 0).unwrap();
    assert_eq!((rest(&s, j), string(&v)), ("\\".to_string(), "abc".to_string()));
    let s = chars("\\babc\\");
    let (j, v) = content_with_escape(&s, 0).unwrap();
    assert_eq!((rest(&s, j), string(&v)), ("\\".to_string(), "\u{8}abc".to_string()));
}

#[test]
fn nom7() {
    let s = chars("abc");
    let (j, v) = quoted_or_plain(&s, 0).unwrap();
    assert_eq!((rest(&s, j), string(&v)), ("".to_string(), "abc".to_string()));
    let s = chars("\"abc\"");
    let (j, v) = quoted_or_plain(&s, 0).unwrap();
    assert_eq!((rest(&s, j), string(&v)), ("".to_string(), "abc".to_string()));
    let s = chars("\"a\\nbc\"");
    let (j, v) = quoted_or_plain(&s, 0).unwrap();
    assert_eq!((rest(&s, j), string(&v)), ("".to_string(), "a\nbc".to_string()));
}

#[test]
fn nom8() {
    let s = chars("abc");
    let (j, v) = kseqi::parse::varg(&s, 0).unwrap();
    assert_eq!(rest(&s, j), "".to_string());
    assert_eq!(v.len(), 1);
    assert_eq!(string(&v[0]), "abc");
    let s = chars("abc def ");
    let (j, v) = kseqi::parse::varg(&s, 0).unwrap();
    assert_eq!(rest(&s, j), " ".to_string());
    assert_eq!(v.len(), 2);
    assert_eq!(string(&v[0]), "abc");
    assert_eq!(string(&v[1]), "def");
    let s = chars("abc \"de\\tf\", ");
    let (j, v) = kseqi::parse::varg(&s, 0).unwrap();
    assert_eq!(rest(&s, j), ", ".to_string());
    assert_eq!(v.len(), 2);
    assert_eq!(string(&v[0]), "abc");
    assert_eq!(string(&v[1]), "de\tf");
}

#[test]
fn nom9() {
    let s = chars("abc d f");
    let j = arg1(&s, 0).unwrap();
    assert_eq!((rest(&s, j), string(&s[..j])), ("".to_string(), "abc d f".to_string()));
    let s = chars(r#"abc d f",","#);
    let j = arg1(&s, 0).unwrap();
    assert_eq!((rest(&s, j), string(&s[..j])), ("\",\",".to_string(), "abc d f".to_string()));
    let s = chars("dof\"");
    let j = arg1(&s, 0).unwrap();
    assert_eq!((rest(&s, j), string(&s[..j])), ("\"".to_string(), "dof".to_string()));
}

#[test]
fn nom10() {
    let s = chars(r#"abc d f",","#);
    let (j, v) = args_str_before_comma(&s, 0);
    assert_eq!((rest(&s, j), string(&v)), (",".to_string(), "abc d f\",\"".to_string()));
    let s = chars("abc d f \",\" ,");
    let (j, v) = args_str_before_comma(&s, 0);
    assert_eq!((rest(&s, j), string(&v)), (",".to_string(), "abc d f \",\"".to_string()));
}

#[test]
fn nom11() {
    let s = chars("text abc d f ,");
    let (j, v) = action_text_arg(&s, 0).unwrap();
    assert_eq!((rest(&s, j), string(&v)), (",".to_string(), "abc d f".to_string()));
}

#[test]
fn nom12() {
    let s = chars("ctrl+ c ");
    let (j, v) = key_combination(&s, 0).unwrap();
    assert_eq!(rest(&s, j), " ".to_string());
    let got: Vec<String> = v.iter().map(|n| string(n)).collect();
    assert_eq!(got, vec!["ctrl", "c"]);
}

#[test]
fn nom13() {
    let s = chars("ctrl+ c  ctrl+s");
    let (j, v) = key_combi_list(&s, 0).unwrap();
    assert_eq!(rest(&s, j), "".to_string());
    let got: Vec<Vec<String>> = v
        .iter()
        .map(|c| c.iter().map(|n| string(n)).collect())
        .collect();
    assert_eq!(got, vec![vec!["ctrl", "c"], vec!["ctrl", "s"]]);
}

fn expect_actions(input: &str, remainder: &str) {
    let s = chars(input);
    let (j, v) = actions_separated_by_comma(&s, 0).unwrap();
    assert_eq!(rest(&s, j), remainder.to_string());
    assert_eq!(v.len(), 3);
    assert_eq!(v[0], Action::Text(chars("\u{672a}\u{6765}")));
    assert_eq!(v[1], Action::KeyStroke(vec![chars("ctrl"), chars("c")]));
    assert_eq!(v[2], Action::KeyStroke(vec![chars("ctrl"), chars("x")]));
}

#[test]
fn nom14() {
    expect_actions("text \u{672a}\u{6765}, key ctrl+ c ctrl+x #", "#");
}

#[test]
fn nom15() {
    let s = chars("exec abc d f ,");
    let (j, v) = action_exec(&s, 0).unwrap();
    assert_eq!(rest(&s, j), " ,".to_string());
    let got: Vec<String> = v.iter().map(|w| string(w)).collect();
    assert_eq!(got, vec!["abc", "d", "f"]);
}

#[test]
fn nom16() {
    expect_actions("text \u{672a}\u{6765}, key ctrl+ c ctrl+x #", "#");
}

#[test]
fn noml() {}

#[test]
fn line_forms() {
    // a full assignment line, a comment line, a blank line, and a bad line
    let s = chars("N \u{2198} T \u{2197} = text hi # note");
    let a = assignment_line(&s).unwrap().unwrap();
    let names: Vec<String> = a.0.iter().map(|n| string(n)).collect();
    assert_eq!(names, vec!["N", "T"]);
    assert_eq!(a.1, vec![Action::Text(chars("hi"))]);
    assert!(assignment_line(&chars("   # only a comment")).unwrap().is_none());
    assert!(assignment_line(&chars("")).unwrap().is_none());
    assert!(assignment_line(&chars("x = $%&")).is_none());
}

#[test]
fn escapes_decode() {
    // each escape pair in quoted text becomes its single code point
    let pairs = [
        ("\\n", '\n'),
        ("\\r", '\r'),
        ("\\t", '\t'),
        ("\\b", '\u{8}'),
        ("\\f", '\u{c}'),
        ("\\\\", '\\'),
        ("\\/", '/'),
        ("\\\"", '"'),
    ];
    for (esc, want) in pairs {
        let text = format!("\"a{esc}z\"");
        let s = chars(&text);
        let (_, v) = kseqi::parse::quoted(&s, 0).unwrap();
        assert_eq!(v, vec!['a', want, 'z']);
    }
}
