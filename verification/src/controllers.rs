//! The controller model: the shape of each of the five controller slots, the
//! validity rule for bindings against that shape, and the label and
//! enumeration tables that selection UIs consume.

use vstd::prelude::*;

use crate::bindings::{Button, ButtonLocation};
use crate::text::{dec_int, i64_to_string};

verus! {

/// The shape of one controller slot: a generic pad with counted buttons and
/// axes, the well-known gamepad layout (whose stick sensitivity is a 32-bit
/// float bit pattern, opaque to the core), or nothing assigned.
#[derive(Debug, PartialEq, Eq, Structural, Clone, Copy)]
pub enum ControllerType {
    Generic { buttons: u8, axises: u8 },
    XBox { sensitivity: u32 },
    NotBound,
}

impl Default for ControllerType {
    fn default() -> (r: Self)
        ensures
            r == ControllerType::NotBound,
    {
        ControllerType::NotBound
    }
}

impl ControllerType {
    /// How many ordinary buttons the slot offers.
    pub open spec fn spec_num_buttons(self) -> u8 {
        match self {
            ControllerType::Generic { buttons, .. } => buttons,
            ControllerType::XBox { .. } => 10,
            ControllerType::NotBound => 0,
        }
    }

    /// How many analog axes the slot offers.
    pub open spec fn spec_num_axises(self) -> u8 {
        match self {
            ControllerType::Generic { axises, .. } => axises,
            ControllerType::XBox { .. } => 6,
            ControllerType::NotBound => 0,
        }
    }

    pub fn num_buttons(&self) -> (r: u8)
        ensures
            r == self.spec_num_buttons(),
    {
        match self {
            ControllerType::Generic { buttons, .. } => *buttons,
            ControllerType::XBox { .. } => 10,
            ControllerType::NotBound => 0,
        }
    }

    pub fn num_axises(&self) -> (r: u8)
        ensures
            r == self.spec_num_axises(),
    {
        match self {
            ControllerType::Generic { axises, .. } => *axises,
            ControllerType::XBox { .. } => 6,
            ControllerType::NotBound => 0,
        }
    }

    /// Is a controller assigned to the slot?
    pub fn bound(&self) -> (r: bool)
        ensures
            r == !(*self is NotBound),
    {
        !matches!(self, ControllerType::NotBound)
    }

    /// The validity rule for a button against this slot's shape: ordinary
    /// buttons within the slot's button count; POV directions only on a
    /// bound controller, at one of the eight compass angles or -1 for "no
    /// direction"; analog-as-button only on the well-known layout's two
    /// trigger axes.
    pub open spec fn spec_valid_binding(self, b: Button) -> bool {
        match b.location {
            ButtonLocation::Button => 1 <= b.button && b.button <= self.spec_num_buttons(),
            ButtonLocation::Pov => !(self is NotBound) && (b.button == -1 || b.button == 0
                || b.button == 45 || b.button == 90 || b.button == 135 || b.button == 180
                || b.button == 225 || b.button == 270 || b.button == 315),
            ButtonLocation::Analog => match self {
                ControllerType::XBox { .. } => b.button == 2 || b.button == 3,
                _ => false,
            },
        }
    }

    pub fn valid_binding(&self, binding: Button) -> (r: bool)
        ensures
            r == self.spec_valid_binding(binding),
    {
        match binding.location {
            ButtonLocation::Button => {
                1 <= binding.button && binding.button <= self.num_buttons() as i16
            }
            ButtonLocation::Pov => match self {
                ControllerType::NotBound => false,
                _ => {
                    binding.button == -1 || binding.button == 0 || binding.button == 45
                        || binding.button == 90 || binding.button == 135 || binding.button == 180
                        || binding.button == 225 || binding.button == 270 || binding.button == 315
                }
            },
            ButtonLocation::Analog => match self {
                ControllerType::Generic { .. } => false,
                ControllerType::XBox { .. } => binding.button == 2 || binding.button == 3,
                ControllerType::NotBound => false,
            },
        }
    }

    /// The fixed label of button `n` on the well-known layout.
    pub open spec fn spec_xbox_button_name(n: i16) -> Seq<char> {
        if n == 1 {
            "a"@
        } else if n == 2 {
            "b"@
        } else if n == 3 {
            "x"@
        } else if n == 4 {
            "y"@
        } else if n == 5 {
            "left bumper"@
        } else if n == 6 {
            "right bumper"@
        } else if n == 7 {
            "back"@
        } else if n == 8 {
            "start"@
        } else if n == 9 {
            "left stick"@
        } else {
            "right stick"@
        }
    }

    /// The fixed label of a POV direction.
    pub open spec fn spec_pov_name(n: i16) -> Seq<char> {
        if n == 0 {
            "pov up"@
        } else if n == 45 {
            "pov up right"@
        } else if n == 90 {
            "pov right"@
        } else if n == 135 {
            "pov down right"@
        } else if n == 180 {
            "pov down"@
        } else if n == 225 {
            "pov down left"@
        } else if n == 270 {
            "pov left"@
        } else if n == 315 {
            "pov up left"@
        } else if n == -1 {
            "no pov"@
        } else {
            "ERROR"@
        }
    }

    /// The label of `button` on this slot.
    pub open spec fn spec_button_name(self, button: Button) -> Seq<char> {
        match button.location {
            ButtonLocation::Button => match self {
                ControllerType::Generic { .. } => dec_int(button.button as int),
                ControllerType::XBox { .. } => Self::spec_xbox_button_name(button.button),
                ControllerType::NotBound => "ERROR"@,
            },
            ButtonLocation::Pov => Self::spec_pov_name(button.button),
            ButtonLocation::Analog => match self {
                ControllerType::XBox { .. } => if button.button == 2 {
                    "left trigger"@
                } else if button.button == 3 {
                    "right trigger"@
                } else {
                    "invalid trigger"@
                },
                _ => "ERROR"@,
            },
        }
    }

    /// Render the label of `button`. The well-known layout's button table
    /// only covers its ten buttons, and a generic pad has no analog
    /// pseudo-buttons, so those inputs are ruled out.
    pub fn button_name(&self, button: &Button) -> (r: String)
        requires
            button.location is Button && *self is XBox ==> 1 <= button.button <= 10,
            !(button.location is Analog && *self is Generic),
        ensures
            r@ == self.spec_button_name(*button),
    {
        match button.location {
            ButtonLocation::Button => match self {
                ControllerType::Generic { .. } => i64_to_string(button.button as i64),
                ControllerType::XBox { .. } => {
                    let r = match button.button {
                        1 => "a",
                        2 => "b",
                        3 => "x",
                        4 => "y",
                        5 => "left bumper",
                        6 => "right bumper",
                        7 => "back",
                        8 => "start",
                        9 => "left stick",
                        _ => "right stick",
                    };
                    proof {
                        reveal_strlit("a");
                        reveal_strlit("b");
                        reveal_strlit("x");
                        reveal_strlit("y");
                        reveal_strlit("left bumper");
                        reveal_strlit("right bumper");
                        reveal_strlit("back");
                        reveal_strlit("start");
                        reveal_strlit("left stick");
                        reveal_strlit("right stick");
                    }
                    String::from_str(r)
                }
                ControllerType::NotBound => String::from_str("ERROR"),
            },
            ButtonLocation::Pov => {
                let r = match button.button {
                    0 => "pov up",
                    45 => "pov up right",
                    90 => "pov right",
                    135 => "pov down right",
                    180 => "pov down",
                    225 => "pov down left",
                    270 => "pov left",
                    315 => "pov up left",
                    -1 => "no pov",
                    _ => "ERROR",
                };
                proof {
                    reveal_strlit("pov up");
                    reveal_strlit("pov up right");
                    reveal_strlit("pov right");
                    reveal_strlit("pov down right");
                    reveal_strlit("pov down");
                    reveal_strlit("pov down left");
                    reveal_strlit("pov left");
                    reveal_strlit("pov up left");
                    reveal_strlit("no pov");
                    reveal_strlit("ERROR");
                }
                String::from_str(r)
            }
            ButtonLocation::Analog => match self {
                ControllerType::XBox { .. } => {
                    let r = if button.button == 2 {
                        "left trigger"
                    } else if button.button == 3 {
                        "right trigger"
                    } else {
                        "invalid trigger"
                    };
                    proof {
                        reveal_strlit("left trigger");
                        reveal_strlit("right trigger");
                        reveal_strlit("invalid trigger");
                    }
                    String::from_str(r)
                }
                _ => String::from_str("ERROR"),
            },
        }
    }

    /// The label of analog axis `axis` on this slot.
    pub open spec fn spec_axis_name(self, axis: u8) -> Seq<char> {
        match self {
            ControllerType::Generic { .. } => dec_int(axis as int),
            ControllerType::XBox { .. } => if axis == 0 {
                "left x axis"@
            } else if axis == 1 {
                "left y axis"@
            } else if axis == 2 {
                "left trigger"@
            } else if axis == 3 {
                "right trigger"@
            } else if axis == 4 {
                "right x axis"@
            } else if axis == 5 {
                "right y axis"@
            } else {
                "ERROR"@
            },
            ControllerType::NotBound => "ERROR"@,
        }
    }

    /// Render the label of analog axis `axis`.
    pub fn axis_name(&self, axis: u8) -> (r: String)
        ensures
            r@ == self.spec_axis_name(axis),
    {
        match self {
            ControllerType::Generic { .. } => i64_to_string(axis as i64),
            ControllerType::XBox { .. } => {
                let r = match axis {
                    0 => "left x axis",
                    1 => "left y axis",
                    2 => "left trigger",
                    3 => "right trigger",
                    4 => "right x axis",
                    5 => "right y axis",
                    _ => "ERROR",
                };
                proof {
                    reveal_strlit("left x axis");
                    reveal_strlit("left y axis");
                    reveal_strlit("left trigger");
                    reveal_strlit("right trigger");
                    reveal_strlit("right x axis");
                    reveal_strlit("right y axis");
                    reveal_strlit("ERROR");
                }
                String::from_str(r)
            }
            ControllerType::NotBound => String::from_str("ERROR"),
        }
    }

    /// The nine POV entries offered for selection, "no direction" first.
    pub open spec fn spec_povs() -> Seq<Button> {
        seq![
            Button { button: -1i16, location: ButtonLocation::Pov },
            Button { button: 0i16, location: ButtonLocation::Pov },
            Button { button: 45i16, location: ButtonLocation::Pov },
            Button { button: 90i16, location: ButtonLocation::Pov },
            Button { button: 135i16, location: ButtonLocation::Pov },
            Button { button: 180i16, location: ButtonLocation::Pov },
            Button { button: 225i16, location: ButtonLocation::Pov },
            Button { button: 270i16, location: ButtonLocation::Pov },
            Button { button: 315i16, location: ButtonLocation::Pov },
        ]
    }

    /// Every POV entry, for selection UIs; the same on every slot shape.
    pub fn enumerate_povs(&self) -> (r: Vec<Button>)
        ensures
            r@ == Self::spec_povs(),
    {
        let mut v: Vec<Button> = Vec::new();
        v.push(Button { button: -1, location: ButtonLocation::Pov });
        v.push(Button { button: 0, location: ButtonLocation::Pov });
        v.push(Button { button: 45, location: ButtonLocation::Pov });
        v.push(Button { button: 90, location: ButtonLocation::Pov });
        v.push(Button { button: 135, location: ButtonLocation::Pov });
        v.push(Button { button: 180, location: ButtonLocation::Pov });
        v.push(Button { button: 225, location: ButtonLocation::Pov });
        v.push(Button { button: 270, location: ButtonLocation::Pov });
        v.push(Button { button: 315, location: ButtonLocation::Pov });
        proof {
            assert(v@ =~= Self::spec_povs());
        }
        v
    }

    /// The analog pseudo-buttons the slot offers: the two triggers on the
    /// well-known layout, none elsewhere.
    pub open spec fn spec_analog(self) -> Seq<Button> {
        match self {
            ControllerType::XBox { .. } => seq![
                Button { button: 2i16, location: ButtonLocation::Analog },
                Button { button: 3i16, location: ButtonLocation::Analog },
            ],
            _ => Seq::empty(),
        }
    }

    pub fn enumerate_analog(&self) -> (r: Vec<Button>)
        ensures
            r@ == self.spec_analog(),
    {
        let mut v: Vec<Button> = Vec::new();
        match self {
            ControllerType::XBox { .. } => {
                v.push(Button { button: 2, location: ButtonLocation::Analog });
                v.push(Button { button: 3, location: ButtonLocation::Analog });
                proof {
                    assert(v@ =~= self.spec_analog());
                }
            }
            _ => {}
        }
        v
    }

    /// Every selectable pseudo-button on the slot: ordinary buttons 1..=N,
    /// then the nine POV entries, then any analog pseudo-buttons.
    pub fn enumerate_buttons(&self) -> (r: Vec<Button>)
        ensures
            r@.len() == self.spec_num_buttons() + Self::spec_povs().len()
                + self.spec_analog().len(),
            forall|i: int|
                0 <= i < self.spec_num_buttons() ==> (#[trigger] r@[i]) == (Button {
                    button: (i + 1) as i16,
                    location: ButtonLocation::Button,
                }),
            forall|i: int|
                0 <= i < Self::spec_povs().len() ==> (#[trigger] r@[self.spec_num_buttons() + i])
                    == Self::spec_povs()[i],
            forall|i: int|
                0 <= i < self.spec_analog().len() ==> (#[trigger] r@[self.spec_num_buttons()
                    + Self::spec_povs().len() + i]) == self.spec_analog()[i],
    {
        let mut v: Vec<Button> = Vec::new();
        let n = self.num_buttons() as usize;
        let mut b: usize = 1;
        while b <= n
            invariant
                1 <= b,
                b <= n + 1,
                n <= 255,
                n == self.spec_num_buttons(),
                v@.len() == b - 1,
                forall|i: int|
                    0 <= i < b - 1 ==> (#[trigger] v@[i]) == (Button {
                        button: (i + 1) as i16,
                        location: ButtonLocation::Button,
                    }),
            decreases n + 1 - b,
        {
            v.push(Button { button: b as i16, location: ButtonLocation::Button });
            b += 1;
        }
        let povs = self.enumerate_povs();
        let mut i: usize = 0;
        while i < povs.len()
            invariant
                i <= povs@.len(),
                povs@ == Self::spec_povs(),
                n == self.spec_num_buttons(),
                v@.len() == n + i,
                forall|j: int|
                    0 <= j < n ==> (#[trigger] v@[j]) == (Button {
                        button: (j + 1) as i16,
                        location: ButtonLocation::Button,
                    }),
                forall|j: int| 0 <= j < i ==> (#[trigger] v@[n + j]) == Self::spec_povs()[j],
            decreases povs@.len() - i,
        {
            v.push(povs[i]);
            i += 1;
        }
        let analog = self.enumerate_analog();
        let mut i2: usize = 0;
        while i2 < analog.len()
            invariant
                i2 <= analog@.len(),
                analog@ == self.spec_analog(),
                n == self.spec_num_buttons(),
                v@.len() == n + Self::spec_povs().len() + i2,
                forall|j: int|
                    0 <= j < n ==> (#[trigger] v@[j]) == (Button {
                        button: (j + 1) as i16,
                        location: ButtonLocation::Button,
                    }),
                forall|j: int|
                    0 <= j < Self::spec_povs().len() ==> (#[trigger] v@[n + j])
                        == Self::spec_povs()[j],
                forall|j: int|
                    0 <= j < i2 ==> (#[trigger] v@[n + Self::spec_povs().len() + j])
                        == self.spec_analog()[j],
            decreases analog@.len() - i2,
        {
            v.push(analog[i2]);
            i2 += 1;
        }
        v
    }

    /// Every analog axis index on the slot, in order.
    pub fn enumerate_axises(&self) -> (r: Vec<u8>)
        ensures
            r@.len() == self.spec_num_axises(),
            forall|i: int| 0 <= i < r@.len() ==> (#[trigger] r@[i]) == i,
    {
        let mut v: Vec<u8> = Vec::new();
        let n = self.num_axises();
        let mut a: u8 = 0;
        while a < n
            invariant
                a <= n,
                v@.len() == a,
                forall|i: int| 0 <= i < a ==> (#[trigger] v@[i]) == i,
            decreases n - a,
        {
            v.push(a);
            a += 1;
        }
        v
    }
}

} // verus!
