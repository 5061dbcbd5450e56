//! Whole runs through matcher, dispatcher and keysym allocator.

use kseqi::conf::{Action, AddOutcome, MapBuilder, Mapping};
use kseqi::dispatch::{Emit, Xdo};
use kseqi::matcher::{EndDecision, Matcher};
use kseqi::names::NameMap;
use kseqi::parse::assignment_line;
use kseqi::symcode::{SymCode, SymGroup};
use kseqi::table::Table;
use kseqi::device::Use;
use kseqi::{XlibErr, x_err, x_err_o, x_expect};

fn chars(s: &str) -> Vec<char> {
    s.chars().collect()
}

fn layout() -> (Table<u8>, Table<u32>) {
    let mut sym_to_code: Table<u8> = Table::new();
    for (i, c) in ('a'..='z').enumerate() {
        sym_to_code.insert(c as u32, 38 + i as u8);
    }
    sym_to_code.insert(0xffe3, 37);
    let mut keycode_mod: Table<u32> = Table::new();
    keycode_mod.insert(37, 0x4);
    keycode_mod.insert(250, 0x1);
    (sym_to_code, keycode_mod)
}

fn load(lines: &[&str]) -> Mapping {
    let (stc, kcm) = layout();
    let mut build = MapBuilder::new(stc, kcm);
    for line in lines {
        let s = chars(line);
        let (names, acts) = assignment_line(&s).unwrap().unwrap();
        assert_eq!(build.add(&names, &acts, &NameMap::new()), AddOutcome::Added);
    }
    build.build(NameMap::new())
}

fn allocator() -> SymCode {
    // layout keysyms for typing: h, i on their letter keycodes; two
    // spare keycodes 200 and 201; shift on keycode 250
    let mut def: Table<(u8, bool)> = Table::new();
    for (i, c) in ('a'..='z').enumerate() {
        def.insert(c as u32, (38 + i as u8, false));
    }
    for (i, c) in ('A'..='Z').enumerate() {
        def.insert(c as u32, (38 + i as u8, true));
    }
    def.insert(0xffe3, (37, false));
    SymCode::new(def, &vec![200, 201], 252, 250)
}

/// Runs the whole run of events through the matcher.  Every event comes
/// from device 7, reported as a floating slave: a run the daemon sees
/// begins with a press delivered through a per-key grab, which detaches
/// the device.
fn feed_run(m: &mut Matcher, map: &Mapping, events: &[(u8, bool)]) -> EndDecision {
    let mut ended = false;
    for &(code, press) in events {
        assert!(!ended);
        let out = m.on_key(7, code, press, true);
        ended = out.run_ended;
        // the buffer only grows while the run is live
        if m.seqbuf.len() > 0 {
            assert!(press || !m.down.is_empty() || ended);
        }
    }
    assert!(ended);
    let end = m.end_run(map);
    // after every run: buffer empty, matching open again, nothing floats
    assert_eq!(m.seqbuf.len(), 0);
    assert!(m.maybe);
    assert!(m.floating.is_none());
    end.decision
}

/// Drives the dispatcher until idle, collecting every emission.
fn drain(xdo: &mut Xdo, now: &mut u64) -> Vec<Emit> {
    let mut emits = Vec::new();
    loop {
        let (sleep, mut em) = xdo.proc(*now);
        emits.append(&mut em);
        match sleep {
            Some(d) => {
                *now += d;
            },
            None => {
                return emits;
            },
        }
    }
}

#[test]
fn text_sequence_dispatches() {
    // press n, press t, release t, release n: the bound text action is
    // dispatched, the buffer is cleared, nothing is replayed
    let map = load(&["n \u{2198} t \u{2198} t \u{2197} n \u{2197} = text \u{672a}\u{6765}"]);
    let mut m = Matcher::new(vec![37, 250]);
    let d = feed_run(&mut m, &map, &[(51, true), (57, true), (57, false), (51, false)]);
    match d {
        EndDecision::Dispatch(acts) => {
            assert_eq!(acts, vec![Action::Text(chars("\u{672a}\u{6765}"))]);
        },
        _ => panic!("expected a dispatch"),
    }
}

#[test]
fn keystroke_pacing() {
    // the bound key action presses ctrl then c, and releases them in
    // the same order: four injected key events
    let map = load(&["a \u{2198} b \u{2198} b \u{2197} a \u{2197} = key ctrl+c"]);
    let mut m = Matcher::new(vec![37, 250]);
    let d = feed_run(&mut m, &map, &[(38, true), (39, true), (39, false), (38, false)]);
    let acts = match d {
        EndDecision::Dispatch(acts) => acts,
        _ => panic!("expected a dispatch"),
    };
    assert_eq!(acts, vec![Action::KeyStroke(vec![0xffe3, 'c' as u32])]);
    let mut xdo = Xdo::new(allocator());
    xdo.add_acts(&acts);
    let mut now = 0u64;
    let emits = drain(&mut xdo, &mut now);
    // ctrl press, c press, ctrl release, c release: exactly four
    assert_eq!(
        emits,
        vec![
            Emit::Key(37, true),
            Emit::Key(40, true),
            Emit::Key(37, false),
            Emit::Key(40, false),
        ]
    );
}

#[test]
fn repeat_replays_last_action() {
    // a text run followed by a repeat-three run: the text is typed four
    // times in all
    let map = load(&[
        "q \u{2198} q \u{2197} = text hi",
        "x \u{2198} x \u{2197} = repeat 3",
    ]);
    let mut m = Matcher::new(vec![37, 250]);
    let mut xdo = Xdo::new(allocator());
    let mut now = 0u64;

    let d = feed_run(&mut m, &map, &[(54, true), (54, false)]);
    match d {
        EndDecision::Dispatch(acts) => xdo.add_acts(&acts),
        _ => panic!("expected a dispatch"),
    }
    let first = drain(&mut xdo, &mut now);
    let h_code = 38 + 7;  // 'h'
    let h_presses = first.iter().filter(|e| **e == Emit::Key(h_code as u32, true)).count();
    assert_eq!(h_presses, 1);

    let d = feed_run(&mut m, &map, &[(61, true), (61, false)]);
    match d {
        EndDecision::Dispatch(acts) => {
            assert_eq!(acts, vec![Action::Repeat(3)]);
            xdo.add_acts(&acts);
        },
        _ => panic!("expected a dispatch"),
    }
    let rest = drain(&mut xdo, &mut now);
    let h_presses = rest.iter().filter(|e| **e == Emit::Key(h_code as u32, true)).count();
    assert_eq!(h_presses, 3);
}

#[test]
fn modifier_only_run_is_quiet() {
    // a run of only modifier keys that matches nothing is neither
    // dispatched nor replayed
    let map = load(&["a \u{2198} a \u{2197} = text x"]);
    let mut m = Matcher::new(vec![37, 250]);
    let d = feed_run(&mut m, &map, &[(250, true), (250, false)]);
    assert!(matches!(d, EndDecision::ModifierOnly));
}

#[test]
fn miss_replays_buffer() {
    // a non-modifier run that matches nothing is replayed as it was
    let map = load(&["a \u{2198} a \u{2197} = text x"]);
    let mut m = Matcher::new(vec![37, 250]);
    let d = feed_run(&mut m, &map, &[(39, true), (39, false)]);
    match d {
        EndDecision::Replay(ev) => assert_eq!(ev, vec![(39, true), (39, false)]),
        _ => panic!("expected a replay"),
    }
    // the replay reaches the injector through the dispatcher
    let mut xdo = Xdo::new(allocator());
    xdo.add_unmatch(&vec![(39, true), (39, false)]);
    let mut now = 0u64;
    let emits = drain(&mut xdo, &mut now);
    assert_eq!(emits, vec![Emit::Key(39, true), Emit::Key(39, false)]);
}

#[test]
fn oversized_replay_dropped() {
    let mut xdo = Xdo::new(allocator());
    let long: Vec<(u8, bool)> = (0..9).map(|i| (40 + i as u8, true)).collect();
    xdo.add_unmatch(&long);
    let mut now = 0u64;
    assert_eq!(drain(&mut xdo, &mut now), vec![]);
}

#[test]
fn floating_device_grab_cycle() {
    // a press from a floating slave escalates to a device grab; the
    // grab is released when the run ends
    let map = load(&["a \u{2198} a \u{2197} = text x"]);
    let mut m = Matcher::new(vec![37, 250]);
    let out = m.on_key(9, 38, true, true);
    assert_eq!(out.grab, Some(9));
    assert!(!out.unusual);
    assert_eq!(m.floating, Some(9));
    let out = m.on_key(9, 38, false, true);
    assert!(out.grab.is_none());
    assert!(out.run_ended);
    let end = m.end_run(&map);
    assert_eq!(end.ungrab, Some(9));
    assert!(m.floating.is_none());
    assert!(matches!(end.decision, EndDecision::Dispatch(_)));
}

#[test]
fn passthrough_when_not_matching() {
    // once a run cannot match, floating events are forwarded live
    let map = load(&["a \u{2198} a \u{2197} = text x"]);
    let mut m = Matcher::new(vec![37, 250]);
    // a press of an unbound key with no grab: matching is written off
    let out = m.on_key(7, 99, true, false);
    assert!(out.pass.is_none());
    assert!(!m.maybe);
    // during pass-through with a floating device, events are forwarded
    let out = m.on_key(7, 99, false, true);
    assert_eq!(out.pass, Some((99, false)));
    assert!(out.run_ended);
    let end = m.end_run(&map);
    assert!(matches!(end.decision, EndDecision::Quiet));
}

#[test]
fn allocator_caches_lookups() {
    // looking the same keysym up again returns the same keycode without
    // a fresh rebind
    let mut syc = allocator();
    let sym = 0x1000000 + 0x672a;
    let (c1, g1) = syc.find_sym(sym);
    assert!(matches!(g1, SymGroup::New));
    assert_eq!(c1, 201);
    let (c2, g2) = syc.find_sym(sym);
    assert_eq!(c2, c1);
    assert!(matches!(g2, SymGroup::Old));
    // a layout keysym never touches the spare ring
    let (c3, g3) = syc.find_sym('a' as u32);
    assert_eq!(c3, 38);
    assert!(matches!(g3, SymGroup::Old));
    let (_, g4) = syc.find_sym('A' as u32);
    assert!(matches!(g4, SymGroup::Shift));
}

#[test]
fn allocator_cleanup_clears_every_slot() {
    // after cleanup no keysym stays loaded on a spare keycode
    let mut syc = allocator();
    let s1 = 0x1000000 + 0x672a;
    let s2 = 0x1000000 + 0x6765;
    syc.find_sym(s1);
    syc.find_sym(s2);
    let live = syc.affirm();
    assert_eq!(live.len(), 2);
    let cleared = syc.cleanup();
    assert_eq!(cleared.len(), 2);
    for &(_, s) in syc.mut_syms.iter() {
        let _ = s;
    }
    for &(s, _) in syc.mut_syms.iter() {
        assert_eq!(s, 0);
    }
    assert_eq!(syc.affirm(), vec![]);
}

#[test]
fn typing_text_rebinds_spares() {
    // typing a character outside the layout first rewrites a spare
    // keycode, then waits, then presses it
    let mut xdo = Xdo::new(allocator());
    xdo.add_acts(&vec![Action::Text(chars("\u{672a}"))]);
    let mut now = 0u64;
    let emits = drain(&mut xdo, &mut now);
    let sym = 0x1000000 + 0x672a;
    assert_eq!(
        emits,
        vec![
            Emit::Rebind(201, sym),
            Emit::Key(201, true),
            Emit::Key(201, false),
        ]
    );
}

#[test]
fn shifted_text_brackets_with_shift() {
    // a capital letter is typed with a synthesized shift around it
    let mut xdo = Xdo::new(allocator());
    xdo.add_acts(&vec![Action::Text(chars("H"))]);
    let mut now = 0u64;
    let emits = drain(&mut xdo, &mut now);
    let h = 38 + 7;
    assert_eq!(
        emits,
        vec![
            Emit::Key(250, true),
            Emit::Key(h, true),
            Emit::Key(250, false),
            Emit::Key(h, false),
        ]
    );
}

#[test]
fn exec_action_spawns() {
    let mut xdo = Xdo::new(allocator());
    xdo.add_acts(&vec![Action::Exec(vec![chars("true")])]);
    let mut now = 0u64;
    let emits = drain(&mut xdo, &mut now);
    assert_eq!(emits, vec![Emit::Spawn(vec![chars("true")])]);
}

#[test]
fn mouse_click_presses_and_releases() {
    let mut xdo = Xdo::new(allocator());
    xdo.add_acts(&vec![Action::MouseClick(2)]);
    let mut now = 0u64;
    let emits = drain(&mut xdo, &mut now);
    assert_eq!(emits, vec![Emit::Btn(2, true), Emit::Btn(2, false)]);
}

#[test]
fn status_codes_map_to_errors() {
    assert_eq!(x_err(1), Ok(()));
    assert_eq!(x_err(10), Err(XlibErr::Access));
    assert_eq!(x_err_o(0, 0), Ok(()));
    assert_eq!(x_expect(0, 2), Err(XlibErr::Value));
    assert_eq!(x_expect(0, 3), Err(XlibErr::Window));
    assert_eq!(x_expect(0, 77), Err(XlibErr::Other));
}

#[test]
fn device_roles() {
    assert!(Use::from_code(3).unwrap().is_slave());
    assert!(Use::from_code(5).unwrap().is_floating());
    assert!(!Use::from_code(1).unwrap().is_slave());
    assert_eq!(Use::from_code(9), Err(9));
}
