//! Loading bindings: name resolution, the builder's outcomes, the grab
//! index, and the render round trip.

use kseqi::conf::{Action, AddOutcome, MapBuilder};
use kseqi::names::{NameMap, alias_sym, fast_path_sym, resolve_name};
use kseqi::parse::assignment_line;
use kseqi::render::{render_seq_text, seq_marks};
use kseqi::smovec::SmoVec;
use kseqi::table::Table;

fn chars(s: &str) -> Vec<char> {
    s.chars().collect()
}

fn string(v: &[char]) -> String {
    v.iter().collect()
}

fn layout() -> (Table<u8>, Table<u32>) {
    // a tiny layout: letters a..z on keycodes 38.., digits 0..9 on 10..,
    // ctrl on keycode 37 with the control mask, shift on 50
    let mut sym_to_code: Table<u8> = Table::new();
    for (i, c) in ('a'..='z').enumerate() {
        sym_to_code.insert(c as u32, 38 + i as u8);
    }
    for d in 0..10u32 {
        sym_to_code.insert('0' as u32 + d, 10 + d as u8);
    }
    sym_to_code.insert(0xffe3, 37);
    sym_to_code.insert(0xffe1, 250);
    let mut keycode_mod: Table<u32> = Table::new();
    keycode_mod.insert(37, 0x4);
    keycode_mod.insert(250, 0x1);
    (sym_to_code, keycode_mod)
}

fn add_line(build: &mut MapBuilder, line: &str) -> AddOutcome {
    let s = chars(line);
    let (names, acts) = assignment_line(&s).unwrap().unwrap();
    build.add(&names, &acts, &NameMap::new())
}

#[test]
fn resolver_paths() {
    // fast path: single letters and digits, lowercased
    assert_eq!(fast_path_sym(&chars("N")), Some('n' as u32));
    assert_eq!(fast_path_sym(&chars("7")), Some('7' as u32));
    assert_eq!(fast_path_sym(&chars("ctrl")), None);
    // aliases, matched without regard to case
    assert_eq!(alias_sym(&chars("ctrl")), Some(0xffe3));
    assert_eq!(alias_sym(&chars("Ctrl")), Some(0xffe3));
    assert_eq!(alias_sym(&chars("SHIFT")), Some(0xffe1));
    assert_eq!(alias_sym(&chars("enter")), Some(0xff0d));
    assert_eq!(alias_sym(&chars("nosuch")), None);
    // the display library's answer takes precedence over the alias table
    let mut xn = NameMap::new();
    xn.push(chars("ctrl"), 12345);
    assert_eq!(resolve_name(&chars("ctrl"), &xn), Some(12345));
    assert_eq!(resolve_name(&chars("ctrl"), &NameMap::new()), Some(0xffe3));
    assert_eq!(resolve_name(&chars("zzz"), &NameMap::new()), None);
}

#[test]
fn build_and_lookup() {
    let (stc, kcm) = layout();
    let mut build = MapBuilder::new(stc, kcm);
    assert_eq!(add_line(&mut build, "n \u{2198} t \u{2198} t \u{2197} n \u{2197} = text hi"), AddOutcome::Added);
    let m = build.build(NameMap::new());
    // 'n' is keycode 51, 't' is 57
    let seq = SmoVec::new(&[51u8, 57, 57, 51]).unwrap();
    let acts = m.get(&seq).unwrap();
    assert_eq!(acts.as_slice(), &[Action::Text(chars("hi"))]);
    let missing = SmoVec::new(&[51u8, 51]).unwrap();
    assert!(m.get(&missing).is_none());
}

#[test]
fn duplicate_sequence_replaced() {
    // the later definition wins and the replaced actions are reported
    let (stc, kcm) = layout();
    let mut build = MapBuilder::new(stc, kcm);
    assert_eq!(add_line(&mut build, "a \u{2198} a \u{2197} = text one"), AddOutcome::Added);
    let out = add_line(&mut build, "a \u{2198} a \u{2197} = text two");
    assert_eq!(out, AddOutcome::Replaced(vec![Action::Text(chars("one"))]));
    let m = build.build(NameMap::new());
    let seq = SmoVec::new(&[38u8, 38]).unwrap();
    assert_eq!(m.get(&seq).unwrap().as_slice(), &[Action::Text(chars("two"))]);
}

#[test]
fn builder_errors() {
    let (stc, kcm) = layout();
    let mut build = MapBuilder::new(stc, kcm);
    let long: Vec<String> = (0..9).flat_map(|_| ["a".to_string(), "b".to_string()]).collect();
    let line = format!("{} = text x", long.join(" "));
    assert_eq!(add_line(&mut build, &line), AddOutcome::TooLong);
    assert_eq!(add_line(&mut build, "zz \u{2198} zz \u{2197} = text x"), AddOutcome::UnknownKey(0));
    // an odd short sequence fits no shape of the container
    assert_eq!(add_line(&mut build, "a b c = text x"), AddOutcome::BadLen);
    // a keysym the current layout cannot type
    assert_eq!(
        add_line(&mut build, "enter \u{2198} enter \u{2197} = text x"),
        AddOutcome::UnknownCode(0)
    );
    // an unresolvable name inside a key action
    assert_eq!(add_line(&mut build, "a \u{2198} a \u{2197} = key qq+a"), AddOutcome::UnknownActKey);
}

#[test]
fn first_key_grabbed() {
    // every loaded binding's first non-modifier key is in the grab
    // index, under the mask of its leading modifiers
    let (stc, kcm) = layout();
    let mut build = MapBuilder::new(stc, kcm);
    assert_eq!(add_line(&mut build, "a \u{2198} a \u{2197} = text x"), AddOutcome::Added);
    assert_eq!(add_line(&mut build, "ctrl \u{2198} b \u{2198} b \u{2197} ctrl \u{2197} = text y"), AddOutcome::Added);
    let m = build.build(NameMap::new());
    assert!(m.grabs.pairs.contains(&(38, 0)));
    // keycode 39 is 'b'; the leading ctrl folds to mask 0x4
    assert!(m.grabs.pairs.contains(&(39, 0x4)));
    assert_eq!(m.grabs.pairs.len(), 2);
}

#[test]
fn render_round_trip() {
    // parse a line, render the sequence back, parse again: same names
    let line = "n \u{2198} t \u{2198} t \u{2197} n \u{2197} = text hi";
    let s = chars(line);
    let (names, _) = assignment_line(&s).unwrap().unwrap();
    let codes = [51u8, 57, 57, 51];
    let marks = seq_marks(&codes);
    assert_eq!(marks, chars("\u{2198}\u{2198}\u{2197}\u{2197}"));
    let text = render_seq_text(&names, &marks);
    assert_eq!(string(&text), "n\u{2198} t\u{2198} t\u{2197} n\u{2197}");
    let (_, names2) = kseqi::parse::keyname_seq(&text, 0).unwrap();
    assert_eq!(names, names2);
}

#[test]
fn actions_render_back() {
    // a bound action list renders to the configuration's spelling
    let mut names = NameMap::new();
    names.push(chars("ctrl"), 0xffe3);
    let acts = vec![
        Action::Text(chars("hi")),
        Action::KeyStroke(vec![0xffe3, 99]),
        Action::MouseClick(3),
        Action::Repeat(12),
        Action::Exec(vec![chars("notify-send"), chars("hello")]),
    ];
    let text = kseqi::render::render_acts(&acts, &names);
    assert_eq!(
        string(&text),
        "text hi, key ctrl+99, mouse 3, repeat 12, exec notify-send hello"
    );
}

#[test]
fn example_config_loads() {
    // the bundled example: every line parses and the bindings load
    let example = [
        "# sequences of keys bound to actions",
        "n \u{2198} t \u{2198} t \u{2197} n \u{2197} = text \u{672a}\u{6765}",
        "a \u{2198} b \u{2198} b \u{2197} a \u{2197} = key ctrl+c",
        "x \u{2198} x \u{2197} = repeat 3",
        "m \u{2198} m \u{2197} = mouse 1, exec notify-send hello",
        "",
    ];
    let (stc, kcm) = layout();
    let mut build = MapBuilder::new(stc, kcm);
    let mut loaded = 0;
    for line in example {
        let s = chars(line);
        match assignment_line(&s) {
            Some(Some((names, acts))) => {
                assert_eq!(build.add(&names, &acts, &NameMap::new()), AddOutcome::Added);
                loaded += 1;
                // round trip: render the names and parse them back
                let marks: Vec<char> = names.iter().map(|_| '\u{2198}').collect();
                let text = render_seq_text(&names, &marks);
                let (_, names2) = kseqi::parse::keyname_seq(&text, 0).unwrap();
                assert_eq!(names, names2);
            },
            Some(None) => {},
            None => panic!("line did not parse: {line}"),
        }
    }
    assert_eq!(loaded, 4);
    let m = build.build(NameMap::new());
    assert_eq!(m.seq_act.len(), 4);
}
