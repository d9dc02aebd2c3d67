use heimdall::config::Binding;
use heimdall::config::encode_all;
use heimdall::dispatch::apply_outcomes;
use heimdall::dispatch::build_table;
use heimdall::dispatch::mark_duplicates;
use heimdall::dispatch::plan_ids;
use heimdall::dispatch::DispatchTable;
use heimdall::dispatch::HotKeyEvent;
use heimdall::dispatch::KeyState;

fn binding(key: &str, modifiers: &[&str], command: &str) -> Binding {
    Binding {
        key: Some(key.to_string()),
        arrow: None,
        modifiers: modifiers.iter().map(|m| m.to_string()).collect(),
        command: command.to_string(),
    }
}

#[test]
fn table_has_one_entry_per_registered_binding() {
    let bindings = vec![
        binding("c", &["Ctrl"], "echo one"),
        binding("d", &["Ctrl"], "echo two"),
        binding("e", &["Ctrl"], "echo three"),
    ];
    // The middle registration failed at the OS layer: it contributes no
    // entry and does not block the rest.
    let ids = vec![Some(1u32), None, Some(3u32)];
    let table = build_table(&bindings, &ids);
    assert_eq!(table.len(), 2);
    assert!(table.contains(1));
    assert!(!table.contains(2));
    assert!(table.contains(3));
}

#[test]
fn released_dispatches_pressed_does_not() {
    let bindings = vec![binding("c", &["Ctrl"], "echo hi")];
    let table = build_table(&bindings, &vec![Some(9u32)]);
    let released = table.dispatch(&HotKeyEvent { id: 9, state: KeyState::Released });
    assert_eq!(released, Some("echo hi".to_string()));
    let pressed = table.dispatch(&HotKeyEvent { id: 9, state: KeyState::Pressed });
    assert_eq!(pressed, None);
}

#[test]
fn unknown_id_is_ignored() {
    let table = DispatchTable::new();
    let r = table.dispatch(&HotKeyEvent { id: 5, state: KeyState::Released });
    assert_eq!(r, None);
}

#[test]
fn event_stream_spawns_only_on_release() {
    let bindings = vec![binding("c", &["Ctrl"], "echo hi"), binding("d", &[], "echo bye")];
    let table = build_table(&bindings, &vec![Some(1u32), Some(2u32)]);
    let events = vec![
        HotKeyEvent { id: 1, state: KeyState::Pressed },
        HotKeyEvent { id: 1, state: KeyState::Pressed },
        HotKeyEvent { id: 1, state: KeyState::Released },
        HotKeyEvent { id: 7, state: KeyState::Released },
        HotKeyEvent { id: 2, state: KeyState::Released },
        HotKeyEvent { id: 2, state: KeyState::Pressed },
    ];
    let spawned = table.dispatch_all(&events);
    assert_eq!(spawned, vec!["echo hi".to_string(), "echo bye".to_string()]);
}

#[test]
fn plan_ids_knows_canonical_codes() {
    let codes = vec![
        "ctrl+shift+KeyC".to_string(),
        "ctrl+KeyD".to_string(),
        "ctrl+shift+KeyC".to_string(),
        "definitely not a key".to_string(),
    ];
    let ids = plan_ids(&codes);
    assert_eq!(ids.len(), 4);
    assert!(ids[0].is_some());
    assert!(ids[1].is_some());
    // The id is a function of the code text alone.
    assert_eq!(ids[0], ids[2]);
    // Different codes parse to different hotkeys here.
    assert_ne!(ids[0], ids[1]);
    // A code the hotkey subsystem does not recognize gets no id.
    assert_eq!(ids[3], None);
}

#[test]
fn failed_registration_clears_the_id_and_blocks_nothing() {
    let ids = vec![Some(1u32), Some(2u32), Some(3u32)];
    let outcomes = apply_outcomes(&ids, &vec![true, false, true]);
    assert_eq!(outcomes, vec![Some(1), None, Some(3)]);
}

#[test]
fn duplicate_codes_keep_only_the_first() {
    let ids = vec![Some(1u32), Some(2u32), Some(1u32), None, Some(3u32), Some(2u32)];
    let marked = mark_duplicates(&ids);
    assert_eq!(marked, vec![Some(1), Some(2), None, None, Some(3), None]);
}

#[test]
fn end_to_end_two_bindings_one_spawn() {
    let bindings = vec![
        binding("c", &["Ctrl", "Shift"], "echo hi"),
        binding("d", &["Ctrl"], "echo bye"),
    ];
    let codes = encode_all(&bindings).unwrap();
    assert_eq!(codes, vec!["ctrl+shift+KeyC".to_string(), "ctrl+KeyD".to_string()]);
    let ids = mark_duplicates(&plan_ids(&codes));
    assert!(ids.iter().all(|i| i.is_some()));
    let table = build_table(&bindings, &ids);
    assert_eq!(table.len(), 2);
    let first_id = ids[0].unwrap();
    let spawned = table.dispatch_all(&vec![HotKeyEvent { id: first_id, state: KeyState::Released }]);
    assert_eq!(spawned, vec!["echo hi".to_string()]);
}
