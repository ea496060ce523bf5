//! Core data model of a joystick-binding editor: a bidirectional map between
//! named commands and controller buttons, a tree of typed configuration
//! constants with per-profile overrides, a controller shape model, and an
//! event-sourced state aggregate that keeps them consistent under edits.

pub mod binding_map;
pub mod bindings;
pub mod component;
pub mod constants;
pub mod controllers;
pub mod kv;
pub mod profile;
pub mod search_selector;
pub mod single_linked_list;
pub mod state;
pub mod tabs;
pub mod text;

pub use bindings::{Binding, Button, ButtonLocation, RunWhen};
