//! The bidirectional binding index under its editing operations.

use bindings_core::binding_map::BindingsMap;
use bindings_core::bindings::{Binding, Button, ButtonLocation, RunWhen};

fn b(controller: u8, index: i16, during: RunWhen) -> Binding {
    Binding {
        controller,
        button: Button {
            button: index,
            location: ButtonLocation::Button,
        },
        during,
    }
}

#[test]
fn add_binding_updates_both_indices() {
    let mut m = BindingsMap::new();
    let added = m.add_binding("shoot".to_string(), b(0, 3, RunWhen::OnTrue));
    assert!(added);
    assert!(m.has_binding(&"shoot".to_string(), b(0, 3, RunWhen::OnTrue)));
    assert!(m.has_button((
        0,
        Button {
            button: 3,
            location: ButtonLocation::Button,
        }
    )));
    assert!(m.is_used(&"shoot".to_string()));
}

#[test]
fn add_binding_twice_changes_nothing() {
    let mut m = BindingsMap::new();
    assert!(m.add_binding("shoot".to_string(), b(0, 3, RunWhen::OnTrue)));
    let before = m.bindings_for_command(&"shoot".to_string());
    let added = m.add_binding("shoot".to_string(), b(0, 3, RunWhen::OnTrue));
    assert!(!added);
    let after = m.bindings_for_command(&"shoot".to_string());
    assert_eq!(before, after);
    assert_eq!(after.len(), 1);
}

#[test]
fn same_button_many_commands() {
    let mut m = BindingsMap::new();
    assert!(m.add_binding("shoot".to_string(), b(0, 3, RunWhen::OnTrue)));
    assert!(m.add_binding("aim".to_string(), b(0, 3, RunWhen::WhileTrue)));
    assert!(m.has_binding(&"shoot".to_string(), b(0, 3, RunWhen::OnTrue)));
    assert!(m.has_binding(&"aim".to_string(), b(0, 3, RunWhen::WhileTrue)));
    assert!(!m.has_binding(&"aim".to_string(), b(0, 3, RunWhen::OnTrue)));
}

#[test]
fn remove_binding_clears_both_sides() {
    let mut m = BindingsMap::new();
    m.add_binding("shoot".to_string(), b(0, 3, RunWhen::OnTrue));
    m.add_binding("shoot".to_string(), b(1, 4, RunWhen::OnFalse));
    m.remove_binding(&"shoot".to_string(), b(0, 3, RunWhen::OnTrue));
    assert!(!m.has_binding(&"shoot".to_string(), b(0, 3, RunWhen::OnTrue)));
    assert!(m.has_binding(&"shoot".to_string(), b(1, 4, RunWhen::OnFalse)));
    assert_eq!(m.bindings_for_command(&"shoot".to_string()).len(), 1);
    assert!(m.is_used(&"shoot".to_string()));
    m.remove_binding(&"shoot".to_string(), b(1, 4, RunWhen::OnFalse));
    assert!(!m.is_used(&"shoot".to_string()));
}

#[test]
fn remove_command_scrubs_reverse_index() {
    let mut m = BindingsMap::new();
    m.add_binding("shoot".to_string(), b(0, 3, RunWhen::OnTrue));
    m.add_binding("aim".to_string(), b(0, 3, RunWhen::WhileTrue));
    m.remove_command(&"shoot".to_string());
    assert!(!m.is_used(&"shoot".to_string()));
    assert!(!m.has_binding(&"shoot".to_string(), b(0, 3, RunWhen::OnTrue)));
    assert!(m.has_binding(&"aim".to_string(), b(0, 3, RunWhen::WhileTrue)));
    assert_eq!(m.bindings_for_command(&"shoot".to_string()).len(), 0);
}

#[test]
fn rename_preserves_binding_list() {
    let mut m = BindingsMap::new();
    m.add_binding("shoot".to_string(), b(0, 3, RunWhen::OnTrue));
    m.add_binding("shoot".to_string(), b(1, 7, RunWhen::WhileFalse));
    let before = m.bindings_for_command(&"shoot".to_string());
    m.rename_binding(&"shoot".to_string(), "fire".to_string());
    let after = m.bindings_for_command(&"fire".to_string());
    assert_eq!(before, after);
    assert_eq!(m.bindings_for_command(&"shoot".to_string()).len(), 0);
    assert!(m.has_binding(&"fire".to_string(), b(0, 3, RunWhen::OnTrue)));
    assert!(m.has_binding(&"fire".to_string(), b(1, 7, RunWhen::WhileFalse)));
}

#[test]
fn from_forward_rebuilds_reverse_index() {
    let list = vec![
        (
            "shoot".to_string(),
            vec![b(0, 3, RunWhen::OnTrue), b(1, 4, RunWhen::OnFalse)],
        ),
        ("aim".to_string(), vec![b(0, 3, RunWhen::WhileTrue)]),
    ];
    let m = BindingsMap::from_forward(&list);
    assert!(m.has_binding(&"shoot".to_string(), b(0, 3, RunWhen::OnTrue)));
    assert!(m.has_binding(&"shoot".to_string(), b(1, 4, RunWhen::OnFalse)));
    assert!(m.has_binding(&"aim".to_string(), b(0, 3, RunWhen::WhileTrue)));
    assert!(m.has_button((
        1,
        Button {
            button: 4,
            location: ButtonLocation::Button,
        }
    )));
    assert!(!m.has_binding(&"aim".to_string(), b(1, 4, RunWhen::OnFalse)));
}

#[test]
fn from_forward_skips_duplicate_pairs() {
    let dup = b(2, 5, RunWhen::OnTrue);
    let list = vec![("shoot".to_string(), vec![dup, dup])];
    let m = BindingsMap::from_forward(&list);
    assert_eq!(m.bindings_for_command(&"shoot".to_string()).len(), 1);
}

#[test]
fn pov_and_analog_buttons_index_separately() {
    let pov = Binding {
        controller: 0,
        button: Button {
            button: 90,
            location: ButtonLocation::Pov,
        },
        during: RunWhen::OnTrue,
    };
    let analog = Binding {
        controller: 0,
        button: Button {
            button: 2,
            location: ButtonLocation::Analog,
        },
        during: RunWhen::OnTrue,
    };
    let mut m = BindingsMap::new();
    m.add_binding("look".to_string(), pov);
    m.add_binding("boost".to_string(), analog);
    assert!(m.has_button((
        0,
        Button {
            button: 90,
            location: ButtonLocation::Pov,
        }
    )));
    assert!(!m.has_button((
        0,
        Button {
            button: 90,
            location: ButtonLocation::Button,
        }
    )));
    assert!(m.has_binding(&"boost".to_string(), analog));
}
