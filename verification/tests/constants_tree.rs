//! The constant tree: zero values, path insertion and removal.

use bindings_core::constants::{Constants, ConstantsType};

fn path(names: &[&str]) -> Vec<String> {
    names.iter().map(|n| n.to_string()).collect()
}

#[test]
fn defaults_for_plain_types() {
    assert_eq!(
        Constants::default_for_type(&ConstantsType::Int),
        Some(Constants::Int(0))
    );
    assert_eq!(
        Constants::default_for_type(&ConstantsType::Float),
        Some(Constants::Float(0))
    );
    assert_eq!(
        Constants::default_for_type(&ConstantsType::Str),
        Some(Constants::Str(String::new()))
    );
    assert_eq!(
        Constants::default_for_type(&ConstantsType::Bool),
        Some(Constants::Bool(false))
    );
    assert_eq!(
        Constants::default_for_type(&ConstantsType::Distance),
        Some(Constants::Meters { distance: 0 })
    );
    assert_eq!(
        Constants::default_for_type(&ConstantsType::Angle),
        Some(Constants::Degrees { degrees: 0 })
    );
    assert_eq!(
        Constants::default_for_type(&ConstantsType::Null),
        Some(Constants::Null)
    );
    assert_eq!(
        Constants::default_for_type(&ConstantsType::Object),
        Some(Constants::Object { map: Vec::new() })
    );
}

#[test]
fn default_for_driver_wraps_inner_default() {
    let t = ConstantsType::Driver(Box::new(ConstantsType::Int));
    assert_eq!(
        Constants::default_for_type(&t),
        Some(Constants::Driver {
            default: Box::new(Constants::Int(0))
        })
    );
}

#[test]
fn default_for_list_keeps_element_type() {
    let t = ConstantsType::List(Box::new(ConstantsType::Distance));
    assert_eq!(
        Constants::default_for_type(&t),
        Some(Constants::List(Vec::new(), ConstantsType::Distance))
    );
}

#[test]
fn driver_in_driver_is_rejected() {
    for inner in [
        ConstantsType::Int,
        ConstantsType::Object,
        ConstantsType::Null,
        ConstantsType::List(Box::new(ConstantsType::Float)),
    ] {
        let t = ConstantsType::Driver(Box::new(ConstantsType::Driver(Box::new(inner))));
        assert_eq!(Constants::default_for_type(&t), None);
    }
}

#[test]
fn add_then_read_round_trip() {
    let mut tree = Constants::Null;
    let p = path(&["drive", "speed"]);
    let conflict = tree.add_option(&p, Constants::Int(7));
    assert!(!conflict);
    assert_eq!(tree.get_path(&p), Some(&Constants::Int(7)));
}

#[test]
fn remove_then_read_reports_absent() {
    let mut tree = Constants::Null;
    let p = path(&["drive", "speed"]);
    assert!(!tree.add_option(&p, Constants::Int(7)));
    tree.remove_key(&p);
    assert_eq!(tree.get_path(&p), None);
}

#[test]
fn add_conflicts_on_occupied_slot() {
    let mut tree = Constants::Null;
    let p = path(&["drive", "speed"]);
    assert!(!tree.add_option(&p, Constants::Int(7)));
    let conflict = tree.add_option(&p, Constants::Int(9));
    assert!(conflict);
    assert_eq!(tree.get_path(&p), Some(&Constants::Int(7)));
}

#[test]
fn add_conflicts_through_leaf_and_leaves_tree_alone() {
    let mut tree = Constants::Null;
    assert!(!tree.add_option(&path(&["drive"]), Constants::Bool(true)));
    let conflict = tree.add_option(&path(&["drive", "speed"]), Constants::Int(7));
    assert!(conflict);
    assert_eq!(tree.get_path(&path(&["drive"])), Some(&Constants::Bool(true)));
    assert_eq!(tree.get_path(&path(&["drive", "speed"])), None);
}

#[test]
fn add_keeps_siblings() {
    let mut tree = Constants::Null;
    assert!(!tree.add_option(&path(&["drive", "speed"]), Constants::Int(7)));
    assert!(!tree.add_option(&path(&["drive", "turn"]), Constants::Float(0)));
    assert_eq!(tree.get_path(&path(&["drive", "speed"])), Some(&Constants::Int(7)));
    assert_eq!(tree.get_path(&path(&["drive", "turn"])), Some(&Constants::Float(0)));
}

#[test]
fn remove_keeps_siblings() {
    let mut tree = Constants::Null;
    assert!(!tree.add_option(&path(&["drive", "speed"]), Constants::Int(7)));
    assert!(!tree.add_option(&path(&["drive", "turn"]), Constants::Float(0)));
    tree.remove_key(&path(&["drive", "speed"]));
    assert_eq!(tree.get_path(&path(&["drive", "speed"])), None);
    assert_eq!(tree.get_path(&path(&["drive", "turn"])), Some(&Constants::Float(0)));
}

#[test]
fn remove_on_null_tree_is_a_no_op() {
    let mut tree = Constants::Null;
    tree.remove_key(&path(&["missing"]));
    assert_eq!(tree, Constants::Null);
}

#[test]
fn remove_on_unresolvable_path_is_a_no_op() {
    let mut tree = Constants::Null;
    assert!(!tree.add_option(&path(&["drive"]), Constants::Int(1)));
    tree.remove_key(&path(&["drive", "speed", "deep"]));
    assert_eq!(tree.get_path(&path(&["drive"])), Some(&Constants::Int(1)));
}

#[test]
fn duplicate_is_deep_equal() {
    let mut tree = Constants::Null;
    assert!(!tree.add_option(&path(&["a", "b"]), Constants::Str("hi".to_string())));
    assert!(!tree.add_option(
        &path(&["a", "c"]),
        Constants::Driver {
            default: Box::new(Constants::Degrees { degrees: 42 })
        }
    ));
    let copy = tree.duplicate();
    assert_eq!(copy, tree);
}

#[test]
fn type_names_match_labels() {
    assert_eq!(ConstantsType::Object.name(), "Object");
    assert_eq!(ConstantsType::Float.name(), "Float");
    assert_eq!(ConstantsType::Int.name(), "Int");
    assert_eq!(ConstantsType::Str.name(), "String");
    assert_eq!(ConstantsType::Null.name(), "null");
    assert_eq!(
        ConstantsType::Driver(Box::new(ConstantsType::Int)).name(),
        "Driver"
    );
    assert_eq!(
        ConstantsType::List(Box::new(ConstantsType::Int)).name(),
        "List"
    );
    assert_eq!(ConstantsType::Bool.name(), "Bool");
    assert_eq!(ConstantsType::Distance.name(), "Distance");
    assert_eq!(ConstantsType::Angle.name(), "Angle");
}

#[test]
fn valid_types_depend_on_driver_context() {
    let inside = ConstantsType::valid_types(true);
    assert_eq!(inside.len(), 6);
    assert!(!inside.contains(&ConstantsType::Object));
    let top = ConstantsType::valid_types(false);
    assert_eq!(top.len(), 8);
    assert!(top.contains(&ConstantsType::Object));
    assert!(top.contains(&ConstantsType::Driver(Box::new(ConstantsType::Null))));
}

#[test]
fn check_wf_spots_duplicate_field_names() {
    let good = Constants::Object {
        map: vec![
            ("a".to_string(), Constants::Int(1)),
            ("b".to_string(), Constants::Int(2)),
        ],
    };
    assert!(good.check_wf());
    let bad = Constants::Object {
        map: vec![
            ("a".to_string(), Constants::Int(1)),
            ("a".to_string(), Constants::Int(2)),
        ],
    };
    assert!(!bad.check_wf());
}
