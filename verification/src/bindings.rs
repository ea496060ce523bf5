//! Buttons, run conditions and bindings: the vocabulary that ties a named
//! command to a physical control on one of the five controller slots.

use vstd::prelude::*;

verus! {

/// Where on a controller a pseudo-button lives: an ordinary numbered button,
/// an analog axis used as a button (a trigger), or the 8-way POV hat.
#[derive(Debug, PartialEq, Eq, Structural, Clone, Copy)]
pub enum ButtonLocation {
    Button,
    Analog,
    Pov,
}

/// A physical control: a location plus an index. For `Pov` the index is the
/// hat direction in degrees (`-1` meaning "no direction held").
#[derive(Debug, PartialEq, Eq, Structural, Clone, Copy)]
pub struct Button {
    pub button: i16,
    pub location: ButtonLocation,
}

impl Default for Button {
    fn default() -> (r: Self)
        ensures
            r == (Button { button: 1 as i16, location: ButtonLocation::Button }),
    {
        Button { button: 1, location: ButtonLocation::Button }
    }
}

/// When, relative to the boolean state of the bound control, the command runs.
#[derive(Debug, PartialEq, Eq, Structural, Clone, Copy)]
pub enum RunWhen {
    OnTrue,
    OnFalse,
    WhileTrue,
    WhileFalse,
}

impl RunWhen {
    /// The fixed display label of each run condition.
    pub open spec fn spec_str(self) -> Seq<char> {
        match self {
            RunWhen::OnTrue => "on true"@,
            RunWhen::OnFalse => "on false"@,
            RunWhen::WhileTrue => "while true"@,
            RunWhen::WhileFalse => "while false"@,
        }
    }

    pub fn get_str(self) -> (r: &'static str)
        ensures
            r@ == self.spec_str(),
    {
        match self {
            RunWhen::OnTrue => "on true",
            RunWhen::OnFalse => "on false",
            RunWhen::WhileTrue => "while true",
            RunWhen::WhileFalse => "while false",
        }
    }

    /// Every run condition, in a fixed order, for selection UIs.
    pub fn enumerate() -> (r: Vec<RunWhen>)
        ensures
            r@ == seq![RunWhen::OnTrue, RunWhen::OnFalse, RunWhen::WhileTrue, RunWhen::WhileFalse],
    {
        let mut v: Vec<RunWhen> = Vec::new();
        v.push(RunWhen::OnTrue);
        v.push(RunWhen::OnFalse);
        v.push(RunWhen::WhileTrue);
        v.push(RunWhen::WhileFalse);
        proof {
            assert(v@ =~= seq![
                RunWhen::OnTrue,
                RunWhen::OnFalse,
                RunWhen::WhileTrue,
                RunWhen::WhileFalse,
            ]);
        }
        v
    }
}

/// One association of a command to a control: which controller slot, which
/// button, and under which run condition the command fires.
#[derive(Debug, PartialEq, Eq, Structural, Clone, Copy)]
pub struct Binding {
    pub controller: u8,
    pub button: Button,
    pub during: RunWhen,
}

/// A (controller slot, button) pair: the key of the reverse binding index.
pub type PButton = (u8, Button);

} // verus!
