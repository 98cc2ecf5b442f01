use utu::bindings_build::BindingsError;
use utu::editor_command::{CommandError, EditorCommand};
use utu::key_input::{KeyCode, KeyInput};
use utu::keybinding::{KeyBindings, KeySequence, KeySet};

fn key(c: char) -> KeyInput {
    KeyInput { ctrl: false, alt: false, code: KeyCode::Char(c) }
}

fn keys(text: &str) -> KeySequence {
    KeySequence(text.chars().map(key).collect())
}

fn group(name: &str, entries: &[(&str, &str)]) -> (String, Vec<(String, String)>) {
    (name.to_string(), entries.iter().map(|(k, c)| (k.to_string(), c.to_string())).collect())
}

fn scoped() -> KeyBindings {
    KeyBindings::from_groups(vec![
        group("__main__", &[("a", "quit"), ("b", "scope(more)")]),
        group("__clipboard__", &[("p", "paste")]),
        group("more", &[("c", "save")]),
    ])
    .unwrap()
}

#[test]
fn find_resolves_chords_through_scopes() {
    let bindings = scoped();
    assert_eq!(bindings.find(&bindings.main, &keys("a")), Ok(Some(&EditorCommand::Quit)));
    assert_eq!(bindings.find(&bindings.main, &keys("b")), Ok(None));
    assert_eq!(bindings.find(&bindings.main, &keys("bc")), Ok(Some(&EditorCommand::Save)));
    assert_eq!(bindings.find(&bindings.main, &keys("z")), Err(()));
}

#[test]
fn find_edge_cases() {
    let bindings = scoped();
    assert_eq!(bindings.find(&bindings.main, &keys("")), Ok(None));
    assert_eq!(bindings.find(&bindings.main, &keys("bz")), Err(()));
    assert_eq!(bindings.find(&bindings.main, &keys("ba")), Err(()));
    assert_eq!(bindings.find(&bindings.main, &keys("az")), Ok(Some(&EditorCommand::Quit)));
    assert_eq!(bindings.find(&bindings.clipboard, &keys("p")), Ok(Some(&EditorCommand::Paste)));
    assert_eq!(bindings.find(&bindings.clipboard, &keys("a")), Err(()));
}

#[test]
fn global_bindings_are_tried_at_every_step() {
    let bindings = KeyBindings::from_groups(vec![
        group("__main__", &[("a", "scope(sub)"), ("q", "cancel")]),
        group("__clipboard__", &[]),
        group("__global__", &[("q", "quit"), ("u", "undo")]),
        group("sub", &[("x", "cut")]),
    ])
    .unwrap();
    assert_eq!(bindings.find(&bindings.main, &keys("q")), Ok(Some(&EditorCommand::Cancel)));
    assert_eq!(bindings.find(&bindings.main, &keys("u")), Ok(Some(&EditorCommand::Undo)));
    assert_eq!(bindings.find(&bindings.main, &keys("aq")), Ok(Some(&EditorCommand::Quit)));
    assert_eq!(bindings.find(&bindings.main, &keys("ax")), Ok(Some(&EditorCommand::Cut)));
    assert_eq!(bindings.find(&bindings.clipboard, &keys("q")), Ok(Some(&EditorCommand::Quit)));
}

#[test]
fn first_binding_of_a_chord_wins() {
    let bindings = KeyBindings::from_groups(vec![
        group("__main__", &[("a,b", "cut"), ("b,c", "copy")]),
        group("__clipboard__", &[]),
    ])
    .unwrap();
    assert_eq!(bindings.find(&bindings.main, &keys("a")), Ok(Some(&EditorCommand::Cut)));
    assert_eq!(bindings.find(&bindings.main, &keys("b")), Ok(Some(&EditorCommand::Cut)));
    assert_eq!(bindings.find(&bindings.main, &keys("c")), Ok(Some(&EditorCommand::Copy)));
}

#[test]
fn scopes_may_lead_in_a_circle() {
    let bindings = KeyBindings::from_groups(vec![
        group("__main__", &[("a", "scope(x)")]),
        group("__clipboard__", &[]),
        group("x", &[("b", "scope(y)"), ("q", "quit")]),
        group("y", &[("a", "scope(x)")]),
    ])
    .unwrap();
    assert_eq!(bindings.find(&bindings.main, &keys("ababab")), Ok(None));
    assert_eq!(bindings.find(&bindings.main, &keys("ababaq")), Ok(Some(&EditorCommand::Quit)));
    assert_eq!(bindings.find(&bindings.main, &keys("abq")), Err(()));
}

#[test]
fn from_groups_checks_group_names() {
    let ok = vec![group("__main__", &[]), group("__clipboard__", &[])];
    assert!(KeyBindings::from_groups(ok).is_ok());
    assert_eq!(
        KeyBindings::from_groups(vec![group("__clipboard__", &[])]).unwrap_err(),
        BindingsError::MissingMain
    );
    assert_eq!(
        KeyBindings::from_groups(vec![group("__main__", &[])]).unwrap_err(),
        BindingsError::MissingClipboard
    );
    assert_eq!(KeyBindings::from_groups(Vec::new()).unwrap_err(), BindingsError::MissingMain);
    assert_eq!(
        KeyBindings::from_groups(vec![group("__main__", &[]), group("__other__", &[])]).unwrap_err(),
        BindingsError::NoSuchBuiltinGroup { group: 1 }
    );
    assert_eq!(
        KeyBindings::from_groups(vec![group("__", &[])]).unwrap_err(),
        BindingsError::NoSuchBuiltinGroup { group: 0 }
    );
    let with_comment = vec![
        group("__comment__", &[("whatever", "this is not read")]),
        group("__main__", &[]),
        group("__clipboard__", &[]),
        group("_x_", &[]),
    ];
    let bindings = KeyBindings::from_groups(with_comment).unwrap();
    assert_eq!(bindings.groups.len(), 1);
    assert_eq!(bindings.groups[0].0, "_x_");
    assert!(bindings.global.is_none());
}

#[test]
fn from_groups_checks_bindings() {
    let base = |entries: &[(&str, &str)]| {
        KeyBindings::from_groups(vec![
            group("__main__", &[("a", "quit")]),
            group("__clipboard__", entries),
            group("sub", &[]),
        ])
    };
    assert!(base(&[("a", "scope(sub)")]).is_ok());
    assert_eq!(
        base(&[("a", "quit"), ("ab", "quit")]).unwrap_err(),
        BindingsError::InvalidKey { group: 1, entry: 1 }
    );
    assert_eq!(base(&[("", "quit")]).unwrap_err(), BindingsError::InvalidKey { group: 1, entry: 0 });
    assert_eq!(base(&[("a,", "quit")]).unwrap_err(), BindingsError::InvalidKey { group: 1, entry: 0 });
    assert_eq!(
        base(&[("a", "quit!")]).unwrap_err(),
        BindingsError::InvalidCommand { group: 1, entry: 0, error: CommandError::Unknown }
    );
    assert_eq!(
        base(&[("a", "dot(ab)")]).unwrap_err(),
        BindingsError::InvalidCommand { group: 1, entry: 0, error: CommandError::InvalidDot }
    );
    assert_eq!(
        base(&[("a", "scope(nowhere)")]).unwrap_err(),
        BindingsError::NoSuchGroup { group: 1, entry: 0 }
    );
    assert_eq!(
        base(&[("a", "scope(__main__)")]).unwrap_err(),
        BindingsError::NoSuchGroup { group: 1, entry: 0 }
    );
    assert_eq!(
        base(&[("ab", "nothing"), ("a", "scope(nowhere)")]).unwrap_err(),
        BindingsError::InvalidKey { group: 1, entry: 0 }
    );
}

#[test]
fn a_scope_may_name_a_group_that_is_written_later() {
    let bindings = KeyBindings::from_groups(vec![
        group("__main__", &[("a", "scope(later)")]),
        group("later", &[("b", "undo")]),
        group("__clipboard__", &[]),
    ])
    .unwrap();
    assert_eq!(bindings.find(&bindings.main, &keys("ab")), Ok(Some(&EditorCommand::Undo)));
}

#[test]
fn a_group_written_twice_is_the_later_one() {
    let bindings = KeyBindings::from_groups(vec![
        group("__main__", &[("a", "scope(g)"), ("x", "cut")]),
        group("g", &[("b", "undo")]),
        group("h", &[]),
        group("g", &[("b", "save")]),
        group("__main__", &[("a", "scope(g)")]),
        group("__clipboard__", &[]),
    ])
    .unwrap();
    assert_eq!(bindings.groups.len(), 2);
    assert_eq!(bindings.groups[0].0, "g");
    assert_eq!(bindings.groups[1].0, "h");
    assert_eq!(bindings.find(&bindings.main, &keys("ab")), Ok(Some(&EditorCommand::Save)));
    assert_eq!(bindings.find(&bindings.main, &keys("x")), Err(()));
}

#[test]
fn fg_chars_are_the_dots_of_main_global_and_named_groups() {
    let bindings = KeyBindings::from_groups(vec![
        group("__main__", &[("a", "dot(#)"), ("b", "quit"), ("c", "dot(.)")]),
        group("__clipboard__", &[("d", "dot(!)")]),
        group("__global__", &[("e", "dot(g)")]),
        group("x", &[("f", "dot(x)"), ("g", "bg(y)")]),
        group("y", &[("h", "dot(#)")]),
    ])
    .unwrap();
    assert_eq!(bindings.fg_chars(), vec!['#', '.', 'g', 'x', '#']);
}

#[test]
fn group_lookup_by_name() {
    let bindings = scoped();
    assert!(bindings.group(&"more".to_string()).is_some());
    assert!(bindings.group(&"less".to_string()).is_none());
    assert!(bindings.group(&"__main__".to_string()).is_none());
}

#[test]
fn key_set_parse_and_print() {
    let set = KeySet::parse("a,C-b,M-\u{2191},C-M-x").unwrap();
    assert_eq!(
        set.0,
        vec![
            key('a'),
            KeyInput { ctrl: true, alt: false, code: KeyCode::Char('b') },
            KeyInput { ctrl: false, alt: true, code: KeyCode::Up },
            KeyInput { ctrl: true, alt: true, code: KeyCode::Char('x') },
        ]
    );
    assert_eq!(set.to_string(), "a,C-b,M-\u{2191},C-M-x");
    assert_eq!(KeySet::parse("a").unwrap().to_string(), "a");
    assert!(KeySet::parse("").is_none());
    assert!(KeySet::parse(",").is_none());
    assert!(KeySet::parse("a,,b").is_none());
    assert!(KeySet::parse("a,bc").is_none());
    assert!(KeySet::parse("ab,c").is_none());
}

#[test]
fn key_sequence_push_clear_and_print() {
    let mut seq = KeySequence(Vec::new());
    assert_eq!(seq.to_string(), "");
    seq.push(key('a'));
    assert_eq!(seq.to_string(), "a");
    seq.push(KeyInput { ctrl: true, alt: false, code: KeyCode::Enter });
    assert_eq!(seq.to_string(), "a -> C-\u{21b5}");
    seq.clear();
    assert!(seq.0.is_empty());
}

#[test]
fn key_input_from_str() {
    assert_eq!(KeyInput::from_str("a"), Some(key('a')));
    assert_eq!(KeyInput::from_str("C-a"), Some(KeyInput { ctrl: true, alt: false, code: KeyCode::Char('a') }));
    assert_eq!(KeyInput::from_str("M-a"), Some(KeyInput { ctrl: false, alt: true, code: KeyCode::Char('a') }));
    assert_eq!(KeyInput::from_str("C-M-a"), Some(KeyInput { ctrl: true, alt: true, code: KeyCode::Char('a') }));
    assert_eq!(KeyInput::from_str("M-C-a"), None);
    assert_eq!(KeyInput::from_str("C-"), None);
    assert_eq!(KeyInput::from_str("C"), Some(key('C')));
    assert_eq!(KeyInput::from_str("-"), Some(key('-')));
    assert_eq!(KeyInput::from_str("C--"), Some(KeyInput { ctrl: true, alt: false, code: KeyCode::Char('-') }));
    assert_eq!(KeyInput::from_str("C-M"), Some(KeyInput { ctrl: true, alt: false, code: KeyCode::Char('M') }));
    assert_eq!(KeyInput::from_str(""), None);
    assert_eq!(KeyInput::from_str("ab"), None);
    assert_eq!(KeyInput::from_str("\n"), None);
    assert_eq!(KeyInput::from_str("\u{7f}"), None);
    assert_eq!(KeyInput::from_str("\u{3042}"), Some(key('\u{3042}')));
}

#[test]
fn key_signs_round_trip() {
    let signs = [
        (KeyCode::Up, "\u{2191}"),
        (KeyCode::Down, "\u{2193}"),
        (KeyCode::Left, "\u{2190}"),
        (KeyCode::Right, "\u{2192}"),
        (KeyCode::Enter, "\u{21b5}"),
        (KeyCode::Escape, "\u{238b}"),
        (KeyCode::Backspace, "\u{232b}"),
        (KeyCode::Tab, "\u{21e5}"),
        (KeyCode::BackTab, "\u{21e4}"),
        (KeyCode::Delete, "\u{2326}"),
        (KeyCode::Insert, "\u{2380}"),
        (KeyCode::Home, "\u{21f1}"),
        (KeyCode::End, "\u{21f2}"),
        (KeyCode::PageUp, "\u{21de}"),
        (KeyCode::PageDown, "\u{21df}"),
    ];
    for (code, sign) in signs {
        let plain = KeyInput { ctrl: false, alt: false, code };
        assert_eq!(plain.to_string(), sign);
        assert_eq!(KeyInput::from_str(sign), Some(plain));
        let held = KeyInput { ctrl: true, alt: true, code };
        assert_eq!(held.to_string(), format!("C-M-{}", sign));
        assert_eq!(KeyInput::from_str(&held.to_string()), Some(held));
    }
}

#[test]
fn key_order_follows_modifiers_then_keys() {
    let a = key('a');
    let b = key('b');
    let enter = KeyInput { ctrl: false, alt: false, code: KeyCode::Enter };
    let alt_a = KeyInput { ctrl: false, alt: true, code: KeyCode::Char('a') };
    let ctrl_a = KeyInput { ctrl: true, alt: false, code: KeyCode::Char('a') };
    let sorted = [enter, a, b, alt_a, ctrl_a];
    for i in 0..sorted.len() {
        for j in 0..sorted.len() {
            assert_eq!(sorted[i].precedes(&sorted[j]), i < j);
            assert_eq!(sorted[i] < sorted[j], i < j);
        }
    }
    assert_eq!(KeyCode::PageDown.position(), 14);
    assert_eq!(KeyCode::Char('a').position(), 15 + 97);
}

#[test]
fn commands_parse() {
    let plain = [
        ("quit", EditorCommand::Quit),
        ("legend", EditorCommand::Legend),
        ("preview", EditorCommand::Preview),
        ("cancel", EditorCommand::Cancel),
        ("save", EditorCommand::Save),
        ("undo", EditorCommand::Undo),
        ("prev-line", EditorCommand::PrevLine),
        ("next-line", EditorCommand::NextLine),
        ("prev-char", EditorCommand::PrevChar),
        ("next-char", EditorCommand::NextChar),
        ("mark-stroke", EditorCommand::MarkStroke),
        ("mark-line", EditorCommand::MarkLine),
        ("mark-rect", EditorCommand::MarkRect),
        ("mark-filled-rect", EditorCommand::MarkFilledRect),
        ("mark-fill", EditorCommand::MarkFill),
        ("cut", EditorCommand::Cut),
        ("copy", EditorCommand::Copy),
        ("paste", EditorCommand::Paste),
        ("dot(x)", EditorCommand::Dot('x')),
        ("dot())", EditorCommand::Dot(')')),
        ("dot(\u{3042})", EditorCommand::Dot('\u{3042}')),
        ("bg( )", EditorCommand::Background(' ')),
        ("scope(a)", EditorCommand::Scope("a".to_string())),
        ("scope(a)b)", EditorCommand::Scope("a)b".to_string())),
    ];
    for (text, command) in plain {
        assert_eq!(EditorCommand::from_str(text), Ok(command.clone()), "{}", text);
        assert_eq!(command.to_string(), text);
        assert_eq!(command.copy(), command);
    }
}

#[test]
fn commands_that_do_not_parse() {
    assert_eq!(EditorCommand::from_str(""), Err(CommandError::Unknown));
    assert_eq!(EditorCommand::from_str("Quit"), Err(CommandError::Unknown));
    assert_eq!(EditorCommand::from_str("quit "), Err(CommandError::Unknown));
    assert_eq!(EditorCommand::from_str("dot(x"), Err(CommandError::Unknown));
    assert_eq!(EditorCommand::from_str("dot("), Err(CommandError::Unknown));
    assert_eq!(EditorCommand::from_str("dot()"), Err(CommandError::InvalidDot));
    assert_eq!(EditorCommand::from_str("dot(xy)"), Err(CommandError::InvalidDot));
    assert_eq!(EditorCommand::from_str("dot(\n)"), Err(CommandError::InvalidDot));
    assert_eq!(EditorCommand::from_str("bg()"), Err(CommandError::InvalidBackground));
    assert_eq!(EditorCommand::from_str("bg(\u{9f})"), Err(CommandError::InvalidBackground));
    assert_eq!(EditorCommand::from_str("scope()"), Err(CommandError::InvalidScope));
    assert_eq!(EditorCommand::from_str("scope"), Err(CommandError::Unknown));
}

#[test]
fn command_error_messages() {
    assert_eq!(CommandError::InvalidDot.message("dot()"), "invalid dot command: dot()");
    assert_eq!(CommandError::InvalidBackground.message("bg()"), "invalid bg command: bg()");
    assert_eq!(CommandError::InvalidScope.message("scope()"), "invalid scope command: scope()");
    assert_eq!(CommandError::Unknown.message("x"), "unknown command: x");
}
