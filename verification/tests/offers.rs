use utu::editor_command::EditorCommand;
use utu::key_input::{KeyCode, KeyInput};
use utu::keybinding::{KeyBindings, KeySequence};

fn key(c: char) -> KeyInput {
    KeyInput { ctrl: false, alt: false, code: KeyCode::Char(c) }
}

fn keys(text: &str) -> KeySequence {
    KeySequence(text.chars().map(key).collect())
}

fn group(name: &str, entries: &[(&str, &str)]) -> (String, Vec<(String, String)>) {
    (name.to_string(), entries.iter().map(|(k, c)| (k.to_string(), c.to_string())).collect())
}

fn listed(bindings: &KeyBindings, prefix: &str) -> Vec<(String, String)> {
    bindings
        .possible_commands(&bindings.main, &keys(prefix))
        .iter()
        .map(|(k, c)| (k.to_string(), c.to_string()))
        .collect()
}

fn pairs(items: &[(&str, &str)]) -> Vec<(String, String)> {
    items.iter().map(|(k, c)| (k.to_string(), c.to_string())).collect()
}

#[test]
fn offers_are_sorted_by_their_chords() {
    let bindings = KeyBindings::from_groups(vec![
        group("__main__", &[("z", "quit"), ("C-a", "undo"), ("b,a", "cut"), ("b", "copy"), ("\u{21b5}", "save")]),
        group("__clipboard__", &[]),
    ])
    .unwrap();
    assert_eq!(
        listed(&bindings, ""),
        pairs(&[("\u{21b5}", "save"), ("b", "copy"), ("b,a", "cut"), ("z", "quit"), ("C-a", "undo")])
    );
}

#[test]
fn offers_agree_with_a_sorted_map() {
    let bindings = KeyBindings::from_groups(vec![
        group(
            "__main__",
            &[
                ("q", "quit"),
                ("M-x,x", "cut"),
                ("a", "dot(a)"),
                ("C-M-a", "undo"),
                ("a,b", "copy"),
                ("\u{2191}", "prev-line"),
                ("a", "dot(b)"),
                ("M-a", "paste"),
                ("\u{21df},a", "save"),
            ],
        ),
        group("__clipboard__", &[]),
        group("__global__", &[("q", "cancel"), ("0", "legend")]),
    ])
    .unwrap();
    let mut expected = std::collections::BTreeMap::new();
    for entry in bindings.main.entries.iter().chain(bindings.global.iter().flat_map(|g| g.entries.iter())) {
        expected.insert(entry.keys.clone(), entry.command.clone());
    }
    let expected: Vec<_> = expected.into_iter().collect();
    assert_eq!(bindings.possible_commands(&bindings.main, &keys("")), expected);
}

#[test]
fn later_offers_replace_earlier_ones_with_the_same_chords() {
    let bindings = KeyBindings::from_groups(vec![
        group("__main__", &[("a", "cut"), ("b", "copy"), ("a", "paste")]),
        group("__clipboard__", &[]),
        group("__global__", &[("b", "quit")]),
    ])
    .unwrap();
    assert_eq!(listed(&bindings, ""), pairs(&[("a", "paste"), ("b", "quit")]));
}

#[test]
fn after_one_chord_the_scoped_group_is_on_offer() {
    let bindings = KeyBindings::from_groups(vec![
        group("__main__", &[("m", "scope(mark)"), ("q", "quit"), ("n,m", "scope(more)")]),
        group("__clipboard__", &[]),
        group("__global__", &[("u", "undo")]),
        group("mark", &[("l", "mark-line"), ("r", "mark-rect")]),
        group("more", &[("s", "save")]),
    ])
    .unwrap();
    assert_eq!(
        listed(&bindings, "m"),
        pairs(&[("l", "mark-line"), ("r", "mark-rect"), ("s", "save"), ("u", "undo")])
    );
    assert_eq!(listed(&bindings, "n"), pairs(&[("s", "save"), ("u", "undo")]));
    assert_eq!(listed(&bindings, "q"), pairs(&[("u", "undo")]));
    assert_eq!(listed(&bindings, "x"), pairs(&[("u", "undo")]));
    assert_eq!(listed(&bindings, "ml"), pairs(&[("u", "undo")]));
    assert_eq!(
        bindings.possible_commands(&bindings.main, &keys("m"))[0].1,
        EditorCommand::MarkLine
    );
}

#[test]
fn without_bindings_nothing_is_on_offer() {
    let bindings =
        KeyBindings::from_groups(vec![group("__main__", &[]), group("__clipboard__", &[])]).unwrap();
    assert!(listed(&bindings, "").is_empty());
    assert!(listed(&bindings, "a").is_empty());
}
