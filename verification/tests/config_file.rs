use utu::bindings_build::BindingsError;
use utu::editor_command::EditorCommand;
use utu::key_input::{KeyCode, KeyInput};
use utu::keybinding::{KeyBindings, KeySequence};

const CONFIG: &str = r##"{
  "keybindings": {
    "__comment__": "chords are parted by commas",
    "__main__": {
      "q": "quit",
      "?": "legend",
      "C-s": "save",
      "u": "undo",
      "b": "bg( )",
      "↑,k": "prev-line",
      "↓,j": "next-line",
      "←,h": "prev-char",
      "→,l": "next-char",
      "m": "scope(mark)",
      "d": "scope(dot)",
      "v": "preview"
    },
    "__clipboard__": {
      "↑,k": "prev-line",
      "↓,j": "next-line",
      "←,h": "prev-char",
      "→,l": "next-char",
      "p,↵": "paste"
    },
    "__global__": {
      "⎋,C-g": "cancel"
    },
    "mark": {
      "s": "mark-stroke",
      "l": "mark-line",
      "r": "mark-rect",
      "R": "mark-filled-rect",
      "f": "mark-fill",
      "x": "cut",
      "c": "copy"
    },
    "dot": {
      "0": "dot( )",
      "1": "dot(#)",
      "2": "dot(o)"
    }
  },
  "preview": {"width": 32, "height": 32},
  "palette": {" ": "#FFFFFF", "#": "#000000", "o": "#FF0000"}
}"##;

fn groups_of(text: &str) -> Vec<(String, Vec<(String, String)>)> {
    let json = nojson::RawJson::parse(text).unwrap();
    let keybindings = json.value().to_member("keybindings").unwrap().required().unwrap();
    let mut groups = Vec::new();
    for (name, group) in keybindings.to_object().unwrap() {
        let name = name.to_unquoted_string_str().unwrap().into_owned();
        let mut entries = Vec::new();
        if name != "__comment__" {
            for (keys, command) in group.to_object().unwrap() {
                entries.push((
                    keys.to_unquoted_string_str().unwrap().into_owned(),
                    command.to_unquoted_string_str().unwrap().into_owned(),
                ));
            }
        }
        groups.push((name, entries));
    }
    groups
}

fn key(c: char) -> KeyInput {
    KeyInput { ctrl: false, alt: false, code: KeyCode::Char(c) }
}

#[test]
fn keybinding_parse_key_bindings() {
    KeyBindings::from_groups(groups_of(CONFIG)).unwrap();
}

#[test]
fn bindings_of_a_configuration_resolve() {
    let bindings = KeyBindings::from_groups(groups_of(CONFIG)).unwrap();
    assert_eq!(bindings.main.entries.len(), 12);
    assert_eq!(bindings.clipboard.entries.len(), 5);
    assert_eq!(bindings.global.as_ref().map(|g| g.entries.len()), Some(1));
    assert_eq!(bindings.groups.len(), 2);
    assert_eq!(bindings.fg_chars(), vec![' ', '#', 'o']);
    assert_eq!(bindings.canvas_char(), ' ');
    let up = KeyInput { ctrl: false, alt: false, code: KeyCode::Up };
    assert_eq!(bindings.find(&bindings.main, &KeySequence(vec![up])), Ok(Some(&EditorCommand::PrevLine)));
    assert_eq!(
        bindings.find(&bindings.main, &KeySequence(vec![key('m'), key('R')])),
        Ok(Some(&EditorCommand::MarkFilledRect))
    );
    let escape = KeyInput { ctrl: false, alt: false, code: KeyCode::Escape };
    assert_eq!(
        bindings.find(&bindings.main, &KeySequence(vec![key('d'), escape])),
        Ok(Some(&EditorCommand::Cancel))
    );
    let ctrl_g = KeyInput { ctrl: true, alt: false, code: KeyCode::Char('g') };
    assert_eq!(
        bindings.find(&bindings.clipboard, &KeySequence(vec![ctrl_g])),
        Ok(Some(&EditorCommand::Cancel))
    );
}

#[test]
fn a_configuration_without_the_main_group_is_refused() {
    let text = r#"{"keybindings": {"__clipboard__": {}, "x": {"a": "quit"}}}"#;
    assert_eq!(KeyBindings::from_groups(groups_of(text)).unwrap_err(), BindingsError::MissingMain);
}
