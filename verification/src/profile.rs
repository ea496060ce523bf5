//! The persisted documents: one `Profile` per named binding set and one
//! global `SaveData` document shared by all profiles. Reading and writing
//! the files is the shell's business; the documents themselves are plain
//! data with a well-formedness the shell can check before handing them in.

use vstd::prelude::*;

use crate::bindings::Binding;
use crate::constants::Constants;
use crate::controllers::ControllerType;
use crate::kv::{check_uniq_keys, check_uniq_names, uniq_keys, uniq_names};

verus! {

/// The number of controller slots every profile carries.
pub const CONTROLLER_SLOTS: usize = 5;

/// One named profile's document: its bindings, stream routing, controller
/// assignments and names, and its tree of per-profile constant overrides.
#[derive(Debug)]
pub struct Profile {
    pub command_to_bindings: Vec<(String, Vec<Binding>)>,
    pub stream_to_axis: Vec<(String, (u8, u8))>,
    pub controllers: Vec<ControllerType>,
    pub controller_names: Vec<String>,
    pub constants: Constants,
}

impl Profile {
    /// Well-formedness: distinct command and stream keys, exactly five
    /// controller slots and names, a well-formed constant tree.
    pub open spec fn wf(self) -> bool {
        &&& uniq_keys(self.command_to_bindings@)
        &&& uniq_keys(self.stream_to_axis@)
        &&& self.controllers@.len() == CONTROLLER_SLOTS
        &&& self.controller_names@.len() == CONTROLLER_SLOTS
        &&& self.constants.wf()
    }

    /// The empty profile a fresh name starts from: no bindings, no routing,
    /// five unassigned slots with empty names, a null override tree.
    pub fn empty() -> (r: Self)
        ensures
            r.wf(),
            r.command_to_bindings@ == Seq::<(String, Vec<Binding>)>::empty(),
            r.stream_to_axis@ == Seq::<(String, (u8, u8))>::empty(),
            forall|i: int|
                0 <= i < CONTROLLER_SLOTS ==> (#[trigger] r.controllers@[i])
                    == ControllerType::NotBound,
            forall|i: int|
                0 <= i < CONTROLLER_SLOTS ==> (#[trigger] r.controller_names@[i])@ == Seq::<
                    char,
                >::empty(),
            r.constants == Constants::Null,
    {
        let mut controllers: Vec<ControllerType> = Vec::new();
        let mut controller_names: Vec<String> = Vec::new();
        let mut i: usize = 0;
        while i < CONTROLLER_SLOTS
            invariant
                i <= CONTROLLER_SLOTS,
                controllers@.len() == i,
                controller_names@.len() == i,
                forall|j: int|
                    0 <= j < i ==> (#[trigger] controllers@[j]) == ControllerType::NotBound,
                forall|j: int|
                    0 <= j < i ==> (#[trigger] controller_names@[j])@ == Seq::<char>::empty(),
            decreases CONTROLLER_SLOTS - i,
        {
            controllers.push(ControllerType::NotBound);
            controller_names.push(String::new());
            i += 1;
        }
        Profile {
            command_to_bindings: Vec::new(),
            stream_to_axis: Vec::new(),
            controllers,
            controller_names,
            constants: Constants::Null,
        }
    }

    /// Does the document satisfy its well-formedness? The shell runs this on
    /// freshly parsed documents before handing them to the core.
    pub fn check_wf(&self) -> (r: bool)
        ensures
            r == self.wf(),
    {
        check_uniq_keys(&self.command_to_bindings) && check_uniq_keys(&self.stream_to_axis)
            && self.controllers.len() == CONTROLLER_SLOTS && self.controller_names.len()
            == CONTROLLER_SLOTS && self.constants.check_wf()
    }
}

/// The global document: the sync target, the command and stream
/// vocabularies, and the shared constant tree with its driver defaults.
#[derive(Debug)]
pub struct SaveData {
    pub url: Option<String>,
    pub commands: Vec<String>,
    pub constants: Constants,
    pub streams: Vec<String>,
}

impl SaveData {
    /// Well-formedness: distinct command and stream names, a well-formed
    /// constant tree.
    pub open spec fn wf(self) -> bool {
        &&& uniq_names(self.commands@)
        &&& uniq_names(self.streams@)
        &&& self.constants.wf()
    }

    /// The empty global document of a brand-new project.
    pub fn empty() -> (r: Self)
        ensures
            r.wf(),
            r.url is None,
            r.commands@ == Seq::<String>::empty(),
            r.streams@ == Seq::<String>::empty(),
            r.constants == Constants::Null,
    {
        SaveData { url: None, commands: Vec::new(), constants: Constants::Null, streams: Vec::new() }
    }

    /// Does the document satisfy its well-formedness?
    pub fn check_wf(&self) -> (r: bool)
        ensures
            r == self.wf(),
    {
        check_uniq_names(&self.commands) && check_uniq_names(&self.streams)
            && self.constants.check_wf()
    }
}

/// Two name lists read the same, entry for entry.
pub open spec fn names_eq(a: Seq<String>, b: Seq<String>) -> bool {
    a.len() == b.len() && forall|i: int| 0 <= i < a.len() ==> (#[trigger] a[i]@) == b[i]@
}

/// Two command maps read the same, entry for entry.
pub open spec fn cmdmap_eq(a: Seq<(String, Vec<Binding>)>, b: Seq<(String, Vec<Binding>)>) -> bool {
    a.len() == b.len() && forall|i: int|
        0 <= i < a.len() ==> ((#[trigger] a[i]).0@ == b[i].0@ && a[i].1@ == b[i].1@)
}

/// Two stream-routing maps read the same, entry for entry.
pub open spec fn axismap_eq(a: Seq<(String, (u8, u8))>, b: Seq<(String, (u8, u8))>) -> bool {
    a.len() == b.len() && forall|i: int|
        0 <= i < a.len() ==> ((#[trigger] a[i]).0@ == b[i].0@ && a[i].1 == b[i].1)
}

/// Two optional strings read the same.
pub open spec fn opt_str_eq(a: Option<String>, b: Option<String>) -> bool {
    match (a, b) {
        (Some(x), Some(y)) => x@ == y@,
        (None, None) => true,
        _ => false,
    }
}

/// Copy a list of names, reading for reading.
pub fn copy_names(v: &Vec<String>) -> (r: Vec<String>)
    ensures
        names_eq(r@, v@),
        uniq_names(v@) ==> uniq_names(r@),
{
    let mut out: Vec<String> = Vec::new();
    let mut i: usize = 0;
    while i < v.len()
        invariant
            i <= v@.len(),
            out@.len() == i,
            forall|j: int| 0 <= j < i ==> (#[trigger] out@[j]@) == v@[j]@,
        decreases v@.len() - i,
    {
        out.push(v[i].clone());
        i += 1;
    }
    out
}

/// Copy the controller slots exactly.
pub fn copy_controllers(v: &Vec<ControllerType>) -> (r: Vec<ControllerType>)
    ensures
        r@ == v@,
{
    let mut out: Vec<ControllerType> = Vec::new();
    let mut i: usize = 0;
    while i < v.len()
        invariant
            i <= v@.len(),
            out@ == v@.take(i as int),
        decreases v@.len() - i,
    {
        out.push(v[i]);
        proof {
            assert(out@ =~= v@.take(i as int + 1));
        }
        i += 1;
    }
    proof {
        assert(v@.take(v@.len() as int) =~= v@);
    }
    out
}

/// Copy a command map, reading for reading.
pub fn copy_cmdmap(v: &Vec<(String, Vec<Binding>)>) -> (r: Vec<(String, Vec<Binding>)>)
    ensures
        cmdmap_eq(r@, v@),
        uniq_keys(v@) ==> uniq_keys(r@),
{
    let mut out: Vec<(String, Vec<Binding>)> = Vec::new();
    let mut i: usize = 0;
    while i < v.len()
        invariant
            i <= v@.len(),
            out@.len() == i,
            forall|j: int|
                0 <= j < i ==> ((#[trigger] out@[j]).0@ == v@[j].0@ && out@[j].1@ == v@[j].1@),
        decreases v@.len() - i,
    {
        let key = v[i].0.clone();
        let mut bs: Vec<Binding> = Vec::new();
        let inner = &v[i].1;
        let mut j: usize = 0;
        while j < inner.len()
            invariant
                j <= inner@.len(),
                bs@ == inner@.take(j as int),
            decreases inner@.len() - j,
        {
            bs.push(inner[j]);
            proof {
                assert(bs@ =~= inner@.take(j as int + 1));
            }
            j += 1;
        }
        proof {
            assert(inner@.take(inner@.len() as int) =~= inner@);
        }
        out.push((key, bs));
        i += 1;
    }
    out
}

/// Copy a stream-routing map, reading for reading.
pub fn copy_axismap(v: &Vec<(String, (u8, u8))>) -> (r: Vec<(String, (u8, u8))>)
    ensures
        axismap_eq(r@, v@),
        uniq_keys(v@) ==> uniq_keys(r@),
{
    let mut out: Vec<(String, (u8, u8))> = Vec::new();
    let mut i: usize = 0;
    while i < v.len()
        invariant
            i <= v@.len(),
            out@.len() == i,
            forall|j: int|
                0 <= j < i ==> ((#[trigger] out@[j]).0@ == v@[j].0@ && out@[j].1 == v@[j].1),
        decreases v@.len() - i,
    {
        let key = v[i].0.clone();
        let val = v[i].1;
        out.push((key, val));
        i += 1;
    }
    out
}

} // verus!
