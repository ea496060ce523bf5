//! The event-sourced state core against the documented scenarios.

use bindings_core::bindings::{Binding, Button, ButtonLocation, RunWhen};
use bindings_core::constants::Constants;
use bindings_core::profile::Profile;
use bindings_core::state::{GlobalEvents, State};

fn shoot_binding() -> Binding {
    Binding {
        controller: 0,
        button: Button {
            button: 3,
            location: ButtonLocation::Button,
        },
        during: RunWhen::OnTrue,
    }
}

fn doc_with_shoot() -> Profile {
    let mut doc = Profile::empty();
    doc.command_to_bindings
        .push(("shoot".to_string(), vec![shoot_binding()]));
    doc
}

#[test]
fn add_command_and_binding_scenario() {
    let mut s = State::default();
    let mut others: Vec<(String, Profile)> = Vec::new();

    let out = s.apply_event(GlobalEvents::AddCommand("shoot".to_string()), &mut others);
    assert!(out.dirty);
    let out = s.apply_event(
        GlobalEvents::AddBinding(shoot_binding(), "shoot".to_string()),
        &mut others,
    );
    assert!(out.dirty);
    assert!(out.error.is_none());

    assert!(s.is_used(&"shoot".to_string(), &others));
    assert!(s.bindings.has_button((
        0,
        Button {
            button: 3,
            location: ButtonLocation::Button,
        }
    )));

    let savedata = s.to_savedata();
    assert!(savedata.commands.iter().any(|c| c == "shoot"));

    let doc = s.to_profile_data();
    let entry = doc
        .command_to_bindings
        .iter()
        .find(|(c, _)| c == "shoot")
        .expect("the active document lists the command");
    assert_eq!(entry.1, vec![shoot_binding()]);
}

#[test]
fn remove_command_consults_every_profile() {
    let mut s = State::default();
    let mut others: Vec<(String, Profile)> = Vec::new();
    s.apply_event(GlobalEvents::AddCommand("shoot".to_string()), &mut others);

    // Bound only in the sibling profile `comp`, not in the active one.
    let mut others = vec![("comp".to_string(), doc_with_shoot())];
    let out = s.apply_event(GlobalEvents::RemoveCommand("shoot".to_string()), &mut others);
    assert!(out.error.is_some());
    assert!(!out.dirty);
    assert!(s.commands.iter().any(|c| c == "shoot"));

    // Once comp's binding is gone, the removal goes through.
    let mut others = vec![("comp".to_string(), Profile::empty())];
    let out = s.apply_event(GlobalEvents::RemoveCommand("shoot".to_string()), &mut others);
    assert!(out.error.is_none());
    assert!(out.dirty);
    assert!(!s.commands.iter().any(|c| c == "shoot"));
}

#[test]
fn rename_command_rewrites_every_profile() {
    let mut s = State::default();
    let mut none: Vec<(String, Profile)> = Vec::new();
    s.apply_event(GlobalEvents::AddCommand("shoot".to_string()), &mut none);
    s.apply_event(
        GlobalEvents::AddBinding(shoot_binding(), "shoot".to_string()),
        &mut none,
    );

    let mut others = vec![("comp".to_string(), doc_with_shoot())];
    let out = s.apply_event(
        GlobalEvents::RenameCommand("shoot".to_string(), "fire".to_string()),
        &mut others,
    );
    assert!(out.dirty);
    assert!(out.write_profiles);
    assert!(out.error.is_none());

    // The active profile references only the new name.
    assert_eq!(s.bindings.bindings_for_command(&"fire".to_string()), vec![
        shoot_binding()
    ]);
    assert!(s.bindings.bindings_for_command(&"shoot".to_string()).is_empty());
    assert!(s.commands.iter().any(|c| c == "fire"));
    assert!(!s.commands.iter().any(|c| c == "shoot"));

    // The sibling document was rewritten the same way.
    let comp = &others[0].1;
    assert!(comp.command_to_bindings.iter().any(|(c, _)| c == "fire"));
    assert!(!comp.command_to_bindings.iter().any(|(c, _)| c == "shoot"));
    let entry = comp
        .command_to_bindings
        .iter()
        .find(|(c, _)| c == "fire")
        .unwrap();
    assert_eq!(entry.1, vec![shoot_binding()]);
}

#[test]
fn rename_command_refuses_an_existing_name() {
    let mut s = State::default();
    let mut others: Vec<(String, Profile)> = Vec::new();
    s.apply_event(GlobalEvents::AddCommand("shoot".to_string()), &mut others);
    s.apply_event(GlobalEvents::AddCommand("fire".to_string()), &mut others);
    let out = s.apply_event(
        GlobalEvents::RenameCommand("shoot".to_string(), "fire".to_string()),
        &mut others,
    );
    assert!(out.error.is_some());
    assert!(!out.dirty);
    assert!(s.commands.iter().any(|c| c == "shoot"));
}

#[test]
fn display_error_and_save_signal_without_mutating() {
    let mut s = State::default();
    let mut others: Vec<(String, Profile)> = Vec::new();
    let out = s.apply_event(
        GlobalEvents::DisplayError("boom".to_string()),
        &mut others,
    );
    assert_eq!(out.error.as_deref(), Some("boom"));
    assert!(!out.dirty);
    let out = s.apply_event(GlobalEvents::Save, &mut others);
    assert!(out.dirty);
    assert!(out.error.is_none());
}

#[test]
fn add_profile_never_persists_and_set_profile_defers() {
    let mut s = State::default();
    let mut others: Vec<(String, Profile)> = Vec::new();
    let out = s.apply_event(GlobalEvents::AddProfile("comp".to_string()), &mut others);
    assert!(!out.dirty);
    assert!(s.profiles.iter().any(|p| p == "comp"));

    let out = s.apply_event(GlobalEvents::SetProfile("comp".to_string()), &mut others);
    assert!(!out.dirty);
    assert_eq!(out.switch_to.as_deref(), Some("comp"));
}

#[test]
fn set_profile_loaded_swaps_profile_owned_fields() {
    let mut s = State::default();
    let mut others: Vec<(String, Profile)> = Vec::new();
    s.apply_event(GlobalEvents::AddCommand("shoot".to_string()), &mut others);

    let doc = doc_with_shoot();
    s.set_profile_loaded("comp".to_string(), doc);
    assert_eq!(s.profile, "comp");
    assert!(s.profiles.iter().any(|p| p == "comp"));
    assert!(s.bindings.has_binding(&"shoot".to_string(), shoot_binding()));
    // The global vocabulary survives the switch.
    assert!(s.commands.iter().any(|c| c == "shoot"));
}

#[test]
fn constants_events_gate_on_conflicts() {
    let mut s = State::default();
    let mut others: Vec<(String, Profile)> = Vec::new();
    let p = vec!["drive".to_string(), "speed".to_string()];
    let out = s.apply_event(
        GlobalEvents::AddOption(p.clone(), Constants::Int(7)),
        &mut others,
    );
    assert!(out.dirty);
    assert_eq!(s.constants.get_path(&p), Some(&Constants::Int(7)));

    let out = s.apply_event(
        GlobalEvents::AddOption(p.clone(), Constants::Int(9)),
        &mut others,
    );
    assert!(out.error.is_some());
    assert!(!out.dirty);
    assert_eq!(s.constants.get_path(&p), Some(&Constants::Int(7)));
}

#[test]
fn remove_option_scrubs_every_profile_tree() {
    let mut s = State::default();
    let p = vec!["drive".to_string(), "speed".to_string()];
    let mut none: Vec<(String, Profile)> = Vec::new();
    s.apply_event(
        GlobalEvents::AddOption(p.clone(), Constants::Int(7)),
        &mut none,
    );
    s.apply_event(
        GlobalEvents::AddOptionDriver(p.clone(), Constants::Int(5)),
        &mut none,
    );

    let mut comp = Profile::empty();
    assert!(!comp.constants.add_option(&p, Constants::Int(9)));
    let mut others = vec![("comp".to_string(), comp)];

    let out = s.apply_event(GlobalEvents::RemoveOption(p.clone()), &mut others);
    assert!(out.dirty);
    assert!(out.write_profiles);
    assert_eq!(s.constants.get_path(&p), None);
    assert_eq!(s.driver_constants.get_path(&p), None);
    assert_eq!(others[0].1.constants.get_path(&p), None);
}

#[test]
fn driver_option_events_touch_the_override_tree() {
    let mut s = State::default();
    let mut others: Vec<(String, Profile)> = Vec::new();
    let p = vec!["drive".to_string(), "speed".to_string()];
    let out = s.apply_event(
        GlobalEvents::AddOptionDriver(p.clone(), Constants::Int(5)),
        &mut others,
    );
    assert!(out.dirty);
    assert_eq!(s.driver_constants.get_path(&p), Some(&Constants::Int(5)));
    assert_eq!(s.constants.get_path(&p), None);

    let out = s.apply_event(
        GlobalEvents::AddOptionDriver(p.clone(), Constants::Int(6)),
        &mut others,
    );
    assert!(out.error.is_some());
    assert!(!out.dirty);
    assert_eq!(s.driver_constants.get_path(&p), Some(&Constants::Int(5)));

    let out = s.apply_event(GlobalEvents::RemoveOptionDriver(p.clone()), &mut others);
    assert!(out.dirty);
    assert_eq!(s.driver_constants.get_path(&p), None);
}

#[test]
fn stream_events_route_and_rename() {
    let mut s = State::default();
    let mut others: Vec<(String, Profile)> = Vec::new();
    s.apply_event(GlobalEvents::AddStream("throttle".to_string()), &mut others);
    assert!(s.streams.iter().any(|x| x == "throttle"));

    let out = s.apply_event(
        GlobalEvents::SetStream("throttle".to_string(), 1, 2),
        &mut others,
    );
    assert!(out.dirty);
    assert_eq!(
        s.stream_to_axis.iter().find(|(n, _)| n == "throttle").map(|e| e.1),
        Some((1, 2))
    );

    let out = s.apply_event(
        GlobalEvents::SetStream("throttle".to_string(), 3, 4),
        &mut others,
    );
    assert!(out.dirty);
    assert_eq!(
        s.stream_to_axis.iter().find(|(n, _)| n == "throttle").map(|e| e.1),
        Some((3, 4))
    );
    assert_eq!(s.stream_to_axis.len(), 1);

    let out = s.apply_event(
        GlobalEvents::RenameStream("throttle".to_string(), "power".to_string()),
        &mut others,
    );
    assert!(out.dirty);
    assert!(s.streams.iter().any(|x| x == "power"));
    assert!(!s.streams.iter().any(|x| x == "throttle"));
    assert_eq!(
        s.stream_to_axis.iter().find(|(n, _)| n == "power").map(|e| e.1),
        Some((3, 4))
    );
}

#[test]
fn remove_stream_refuses_while_routed() {
    let mut s = State::default();
    let mut others: Vec<(String, Profile)> = Vec::new();
    s.apply_event(GlobalEvents::AddStream("throttle".to_string()), &mut others);
    s.apply_event(
        GlobalEvents::SetStream("throttle".to_string(), 0, 0),
        &mut others,
    );
    let out = s.apply_event(
        GlobalEvents::RemoveStream("throttle".to_string()),
        &mut others,
    );
    assert!(out.error.is_some());
    assert!(s.streams.iter().any(|x| x == "throttle"));

    // A sibling profile's routing also blocks the removal.
    let mut s2 = State::default();
    let mut none: Vec<(String, Profile)> = Vec::new();
    s2.apply_event(GlobalEvents::AddStream("lift".to_string()), &mut none);
    let mut comp = Profile::empty();
    comp.stream_to_axis.push(("lift".to_string(), (2, 1)));
    let mut others2 = vec![("comp".to_string(), comp)];
    let out = s2.apply_event(GlobalEvents::RemoveStream("lift".to_string()), &mut others2);
    assert!(out.error.is_some());

    // Unrouted, it goes.
    let mut others3 = vec![("comp".to_string(), Profile::empty())];
    let out = s2.apply_event(GlobalEvents::RemoveStream("lift".to_string()), &mut others3);
    assert!(out.error.is_none());
    assert!(!s2.streams.iter().any(|x| x == "lift"));
}

#[test]
fn rename_stream_refuses_an_existing_name() {
    let mut s = State::default();
    let mut others: Vec<(String, Profile)> = Vec::new();
    s.apply_event(GlobalEvents::AddStream("a".to_string()), &mut others);
    s.apply_event(GlobalEvents::AddStream("b".to_string()), &mut others);
    let out = s.apply_event(
        GlobalEvents::RenameStream("a".to_string(), "b".to_string()),
        &mut others,
    );
    assert!(out.error.is_some());
    assert!(s.streams.iter().any(|x| x == "a"));
}

#[test]
fn startup_assembly_round_trips_through_documents() {
    let mut s = State::default();
    let mut none: Vec<(String, Profile)> = Vec::new();
    s.apply_event(GlobalEvents::AddCommand("shoot".to_string()), &mut none);
    s.apply_event(
        GlobalEvents::AddBinding(shoot_binding(), "shoot".to_string()),
        &mut none,
    );
    s.apply_event(GlobalEvents::AddStream("throttle".to_string()), &mut none);
    s.apply_event(
        GlobalEvents::SetStream("throttle".to_string(), 1, 2),
        &mut none,
    );

    let savedata = s.to_savedata();
    let doc = s.to_profile_data();
    let rebuilt = State::from_parts(
        savedata,
        doc,
        vec!["default".to_string()],
        "default".to_string(),
    );
    assert!(rebuilt
        .bindings
        .has_binding(&"shoot".to_string(), shoot_binding()));
    assert!(rebuilt.commands.iter().any(|c| c == "shoot"));
    assert!(rebuilt.streams.iter().any(|x| x == "throttle"));
    assert_eq!(
        rebuilt
            .stream_to_axis
            .iter()
            .find(|(n, _)| n == "throttle")
            .map(|e| e.1),
        Some((1, 2))
    );
}

#[test]
fn controller_name_falls_back_to_slot_number() {
    let mut s = State::default();
    assert_eq!(s.controller_name(2), "2");
    s.controller_names[2] = "main stick".to_string();
    assert_eq!(s.controller_name(2), "main stick");
}

#[test]
fn binding_show_composes_the_label() {
    let mut s = State::default();
    s.controllers[0] = bindings_core::controllers::ControllerType::XBox { sensitivity: 0 };
    assert_eq!(shoot_binding().show(&s), "on 0 to x on true");
    s.controller_names[0] = "pilot".to_string();
    assert_eq!(shoot_binding().show(&s), "on pilot to x on true");
}

#[test]
fn state_valid_binding_checks_the_slot() {
    let mut s = State::default();
    s.controllers[1] = bindings_core::controllers::ControllerType::Generic {
        buttons: 5,
        axises: 2,
    };
    let b = Button {
        button: 4,
        location: ButtonLocation::Button,
    };
    assert!(s.valid_binding(1, b));
    assert!(!s.valid_binding(0, b));
    assert!(!s.valid_binding(9, b));
}
