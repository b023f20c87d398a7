use lib::apps::editor::Editor;
use lib::apps::{registry, set_editor_target, AppKind, EditorTarget};
use lib::fs::{seed_defaults, FileSystem};
use lib::input::{Key, KeyEvent, Modifiers};

fn key(k: Key, character: Option<char>) -> KeyEvent {
    KeyEvent { key: k, character, pressed: true, modifiers: Modifiers::default() }
}

fn ctrl(c: char) -> KeyEvent {
    KeyEvent {
        key: Key::Char,
        character: Some(c),
        pressed: true,
        modifiers: Modifiers { shift: false, ctrl: true, alt: false, caps: false },
    }
}

#[test]
fn the_launcher_offers_twelve_apps_in_order() {
    let entries = registry();
    assert_eq!(entries.len(), 12);
    assert_eq!(entries[0].name, "terminal");
    assert_eq!(entries[0].kind, AppKind::Terminal);
    assert_eq!((entries[0].width, entries[0].height), (680, 430));
    assert_eq!(entries[6].name, "calculator");
    assert_eq!(entries[11].title, "About HALCYON");
    assert_eq!(entries[11].kind, AppKind::About);
}

#[test]
fn the_editor_target_is_taken_once() {
    let mut target = EditorTarget::new();
    set_editor_target(&mut target, "/home/todo.txt");
    assert_eq!(target.take(), Some("/home/todo.txt".to_string()));
    assert_eq!(target.take(), None);
}

#[test]
fn the_editor_opens_the_notes_file() {
    let mut fs = FileSystem::new();
    seed_defaults(&mut fs);
    let editor = Editor::new(&fs);
    let lines = editor.lines();
    assert_eq!(lines.len(), 4);
    assert_eq!(lines[0], "Scratch file. The editor saves here.");
    assert_eq!(lines[1], "");
    assert_eq!(editor.message(), "opened /home/notes.txt (4 lines)");
    assert_eq!(editor.cursor(), (0, 0));
}

#[test]
fn the_editor_edits_saves_and_reloads() {
    let mut fs = FileSystem::new();
    let mut editor = Editor::open(&fs, "/tmp/new.txt");
    assert_eq!(editor.message(), "/tmp/new.txt is new");
    assert_eq!(editor.lines(), vec!["".to_string()]);
    editor.on_key(&key(Key::Char, Some('h')), 1, &mut fs);
    editor.on_key(&key(Key::Char, Some('i')), 2, &mut fs);
    editor.on_key(&key(Key::Enter, None), 3, &mut fs);
    editor.on_key(&key(Key::Char, Some('x')), 4, &mut fs);
    assert_eq!(editor.lines(), vec!["hi".to_string(), "x".to_string()]);
    assert_eq!(editor.cursor(), (1, 1));
    editor.on_key(&ctrl('s'), 5, &mut fs);
    assert_eq!(editor.message(), "saved /tmp/new.txt (5 bytes)");
    assert_eq!(fs.read("/tmp/new.txt").unwrap().data.clone(), b"hi\nx\n".to_vec());
    editor.on_key(&key(Key::Backspace, None), 6, &mut fs);
    editor.on_key(&key(Key::Backspace, None), 7, &mut fs);
    assert_eq!(editor.lines(), vec!["hi".to_string()]);
    assert_eq!(editor.cursor(), (0, 2));
    editor.on_key(&ctrl('o'), 8, &mut fs);
    assert_eq!(editor.lines(), vec!["hi".to_string(), "x".to_string()]);
    assert_eq!(editor.message(), "opened /tmp/new.txt (2 lines)");
}

#[test]
fn the_editor_moves_and_indents() {
    let mut fs = FileSystem::new();
    let mut editor = Editor::open(&fs, "/tmp/t.txt");
    editor.on_key(&key(Key::Char, Some('a')), 0, &mut fs);
    editor.on_key(&key(Key::Home, None), 0, &mut fs);
    editor.on_key(&key(Key::Tab, None), 0, &mut fs);
    assert_eq!(editor.lines(), vec!["    a".to_string()]);
    assert_eq!(editor.cursor(), (0, 4));
    editor.on_key(&key(Key::End, None), 0, &mut fs);
    assert_eq!(editor.cursor(), (0, 5));
    editor.on_key(&key(Key::Delete, None), 0, &mut fs);
    assert_eq!(editor.lines(), vec!["    a".to_string()]);
    editor.on_key(&key(Key::Left, None), 0, &mut fs);
    editor.on_key(&key(Key::Delete, None), 0, &mut fs);
    assert_eq!(editor.lines(), vec!["    ".to_string()]);
}
