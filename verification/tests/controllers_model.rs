//! The controller shape model: validity gating, labels, enumerations.

use bindings_core::bindings::{Button, ButtonLocation};
use bindings_core::controllers::ControllerType;

fn btn(index: i16, location: ButtonLocation) -> Button {
    Button {
        button: index,
        location,
    }
}

#[test]
fn generic_validity_gates_on_button_count() {
    let c = ControllerType::Generic {
        buttons: 5,
        axises: 2,
    };
    for i in 1..=5 {
        assert!(c.valid_binding(btn(i, ButtonLocation::Button)));
    }
    assert!(!c.valid_binding(btn(0, ButtonLocation::Button)));
    assert!(!c.valid_binding(btn(6, ButtonLocation::Button)));
    assert!(!c.valid_binding(btn(2, ButtonLocation::Analog)));
    assert!(!c.valid_binding(btn(3, ButtonLocation::Analog)));
}

#[test]
fn xbox_validity_gates_on_triggers() {
    let c = ControllerType::XBox { sensitivity: 0 };
    assert!(c.valid_binding(btn(2, ButtonLocation::Analog)));
    assert!(c.valid_binding(btn(3, ButtonLocation::Analog)));
    assert!(!c.valid_binding(btn(1, ButtonLocation::Analog)));
    assert!(!c.valid_binding(btn(4, ButtonLocation::Analog)));
    assert!(c.valid_binding(btn(10, ButtonLocation::Button)));
    assert!(!c.valid_binding(btn(11, ButtonLocation::Button)));
}

#[test]
fn pov_validity_needs_a_bound_controller() {
    let bound = ControllerType::Generic {
        buttons: 1,
        axises: 0,
    };
    for dir in [-1, 0, 45, 90, 135, 180, 225, 270, 315] {
        assert!(bound.valid_binding(btn(dir, ButtonLocation::Pov)));
        assert!(!ControllerType::NotBound.valid_binding(btn(dir, ButtonLocation::Pov)));
    }
    assert!(!bound.valid_binding(btn(30, ButtonLocation::Pov)));
}

#[test]
fn unbound_slot_validates_nothing() {
    let c = ControllerType::NotBound;
    assert!(!c.valid_binding(btn(1, ButtonLocation::Button)));
    assert!(!c.valid_binding(btn(2, ButtonLocation::Analog)));
    assert!(!c.bound());
    assert!(ControllerType::XBox { sensitivity: 0 }.bound());
}

#[test]
fn xbox_button_names_use_the_fixed_table() {
    let c = ControllerType::XBox { sensitivity: 0 };
    assert_eq!(c.button_name(&btn(1, ButtonLocation::Button)), "a");
    assert_eq!(c.button_name(&btn(4, ButtonLocation::Button)), "y");
    assert_eq!(c.button_name(&btn(5, ButtonLocation::Button)), "left bumper");
    assert_eq!(c.button_name(&btn(10, ButtonLocation::Button)), "right stick");
    assert_eq!(c.button_name(&btn(2, ButtonLocation::Analog)), "left trigger");
    assert_eq!(c.button_name(&btn(3, ButtonLocation::Analog)), "right trigger");
}

#[test]
fn pov_names_use_compass_labels() {
    let c = ControllerType::XBox { sensitivity: 0 };
    assert_eq!(c.button_name(&btn(0, ButtonLocation::Pov)), "pov up");
    assert_eq!(c.button_name(&btn(225, ButtonLocation::Pov)), "pov down left");
    assert_eq!(c.button_name(&btn(-1, ButtonLocation::Pov)), "no pov");
    assert_eq!(c.button_name(&btn(7, ButtonLocation::Pov)), "ERROR");
}

#[test]
fn generic_button_names_are_numeric() {
    let c = ControllerType::Generic {
        buttons: 12,
        axises: 4,
    };
    assert_eq!(c.button_name(&btn(7, ButtonLocation::Button)), "7");
    assert_eq!(c.button_name(&btn(12, ButtonLocation::Button)), "12");
    assert_eq!(c.axis_name(3), "3");
}

#[test]
fn xbox_axis_names_use_the_fixed_table() {
    let c = ControllerType::XBox { sensitivity: 0 };
    assert_eq!(c.axis_name(0), "left x axis");
    assert_eq!(c.axis_name(3), "right trigger");
    assert_eq!(c.axis_name(5), "right y axis");
    assert_eq!(c.axis_name(6), "ERROR");
    assert_eq!(ControllerType::NotBound.axis_name(0), "ERROR");
}

#[test]
fn enumerate_buttons_orders_buttons_povs_analog() {
    let c = ControllerType::XBox { sensitivity: 0 };
    let all = c.enumerate_buttons();
    assert_eq!(all.len(), 10 + 9 + 2);
    assert_eq!(all[0], btn(1, ButtonLocation::Button));
    assert_eq!(all[9], btn(10, ButtonLocation::Button));
    assert_eq!(all[10], btn(-1, ButtonLocation::Pov));
    assert_eq!(all[18], btn(315, ButtonLocation::Pov));
    assert_eq!(all[19], btn(2, ButtonLocation::Analog));
    assert_eq!(all[20], btn(3, ButtonLocation::Analog));

    let g = ControllerType::Generic {
        buttons: 3,
        axises: 1,
    };
    let all_g = g.enumerate_buttons();
    assert_eq!(all_g.len(), 3 + 9);
    assert_eq!(all_g[2], btn(3, ButtonLocation::Button));
    assert_eq!(all_g[3], btn(-1, ButtonLocation::Pov));
}

#[test]
fn enumerate_axises_counts_the_shape() {
    assert_eq!(
        ControllerType::XBox { sensitivity: 0 }.enumerate_axises(),
        vec![0, 1, 2, 3, 4, 5]
    );
    assert_eq!(
        ControllerType::Generic {
            buttons: 2,
            axises: 3
        }
        .enumerate_axises(),
        vec![0, 1, 2]
    );
    assert!(ControllerType::NotBound.enumerate_axises().is_empty());
}
