//! The state core: the single in-memory aggregate of the open project and
//! the closed set of editing events applied against it. Every event
//! application is a consistency-preserving transition that reports whether
//! the project needs persisting and which sibling profile documents must be
//! rewritten; all file traffic stays with the shell.

use vstd::prelude::*;
use vstd::string::StringExecFns;

use crate::binding_map::BindingsMap;
use crate::bindings::{Binding, Button};
use crate::constants::Constants;
use crate::controllers::ControllerType;
use crate::kv::{find_key, has_key, has_name, lemma_key_at, uniq_keys, uniq_names, val_of};
use crate::profile::{
    axismap_eq, cmdmap_eq, copy_axismap, copy_cmdmap, copy_controllers, copy_names, names_eq,
    opt_str_eq, Profile, SaveData, CONTROLLER_SLOTS,
};
use crate::text::dec_digits;
use crate::text::u64_to_string;

verus! {

/// The open project: the global vocabulary and constants, the active
/// profile's bindings and assignments, and the list of known profiles.
#[derive(Debug)]
pub struct State {
    pub url: Option<String>,
    pub syncing: bool,
    pub commands: Vec<String>,
    pub bindings: BindingsMap,
    pub controllers: Vec<ControllerType>,
    pub controller_names: Vec<String>,
    pub profile: String,
    pub profiles: Vec<String>,
    pub constants: Constants,
    pub driver_constants: Constants,
    pub stream_to_axis: Vec<(String, (u8, u8))>,
    pub streams: Vec<String>,
}

/// Every sibling profile document handed in is well-formed.
pub open spec fn all_docs_wf(docs: Seq<(String, Profile)>) -> bool {
    forall|i: int| 0 <= i < docs.len() ==> (#[trigger] docs[i]).1.wf()
}

/// A profile document binds command `c` to something.
pub open spec fn doc_uses_command(doc: Profile, c: Seq<char>) -> bool {
    has_key(doc.command_to_bindings@, c) && val_of(doc.command_to_bindings@, c)@.len() > 0
}

/// A profile document routes stream `s` to an axis.
pub open spec fn doc_uses_stream(doc: Profile, s: Seq<char>) -> bool {
    has_key(doc.stream_to_axis@, s)
}

impl Default for State {
    /// The state of a brand-new project: everything empty, syncing on, one
    /// profile named `default` active.
    fn default() -> (r: Self)
        ensures
            r.wf(),
            r.url is None,
            r.syncing,
            r.commands@ == Seq::<String>::empty(),
            r.streams@ == Seq::<String>::empty(),
            r.profiles@.len() == 1,
            r.profile@ == "default"@,
            r.profiles@[0]@ == "default"@,
            r.constants == Constants::Null,
            r.driver_constants == Constants::Null,
            r.stream_to_axis@ == Seq::<(String, (u8, u8))>::empty(),
            r.bindings.fwd() == Seq::<(String, Vec<Binding>)>::empty(),
            r.bindings.rev() == Seq::<
                (crate::bindings::PButton, crate::binding_map::BoundCommands),
            >::empty(),
            forall|c: Seq<char>, b: Binding| !(#[trigger] r.bindings.spec_has_binding(c, b)),
    {
        let doc = Profile::empty();
        let name = String::from_str("default");
        let mut profiles: Vec<String> = Vec::new();
        profiles.push(name.clone());
        let bindings = BindingsMap::new();
        proof {
            assert(uniq_names(profiles@));
            assert(has_name(profiles@, name@)) by {
                assert(profiles@[0]@ == name@);
            }
        }
        State {
            url: None,
            syncing: true,
            commands: Vec::new(),
            bindings,
            controllers: doc.controllers,
            controller_names: doc.controller_names,
            profile: name,
            profiles,
            constants: Constants::Null,
            driver_constants: Constants::Null,
            stream_to_axis: Vec::new(),
            streams: Vec::new(),
        }
    }
}

impl State {
    /// Well-formedness of the aggregate: the binding index is mirror-exact,
    /// every vocabulary is duplicate-free, the slot vectors hold exactly
    /// five entries, both constant trees are well-formed, and the active
    /// profile is a known one.
    pub open spec fn wf(self) -> bool {
        &&& self.bindings.wf()
        &&& uniq_names(self.commands@)
        &&& uniq_names(self.streams@)
        &&& uniq_names(self.profiles@)
        &&& uniq_keys(self.stream_to_axis@)
        &&& self.controllers@.len() == CONTROLLER_SLOTS
        &&& self.controller_names@.len() == CONTROLLER_SLOTS
        &&& self.constants.wf()
        &&& self.driver_constants.wf()
        &&& has_name(self.profiles@, self.profile@)
    }

    /// Assemble the global document from the in-memory state.
    pub fn to_savedata(&self) -> (r: SaveData)
        requires
            self.wf(),
        ensures
            r.wf(),
            opt_str_eq(r.url, self.url),
            names_eq(r.commands@, self.commands@),
            crate::constants::ceq(r.constants, self.constants),
            names_eq(r.streams@, self.streams@),
    {
        let url = match &self.url {
            Some(u) => Some(u.clone()),
            None => None,
        };
        let constants = self.constants.duplicate();
        proof {
            crate::constants::lemma_ceq_wf(constants, self.constants);
        }
        SaveData {
            url,
            commands: copy_names(&self.commands),
            constants,
            streams: copy_names(&self.streams),
        }
    }

    /// Assemble the active profile's document from the in-memory state. Its
    /// constant tree is the per-profile override tree.
    pub fn to_profile_data(&self) -> (r: Profile)
        requires
            self.wf(),
        ensures
            r.wf(),
            cmdmap_eq(r.command_to_bindings@, self.bindings.fwd()),
            axismap_eq(r.stream_to_axis@, self.stream_to_axis@),
            r.controllers@ == self.controllers@,
            names_eq(r.controller_names@, self.controller_names@),
            crate::constants::ceq(r.constants, self.driver_constants),
    {
        let constants = self.driver_constants.duplicate();
        proof {
            crate::constants::lemma_ceq_wf(constants, self.driver_constants);
        }
        Profile {
            command_to_bindings: copy_cmdmap(&self.bindings.command_to_bindings),
            stream_to_axis: copy_axismap(&self.stream_to_axis),
            controllers: copy_controllers(&self.controllers),
            controller_names: copy_names(&self.controller_names),
            constants,
        }
    }

    /// Assemble the in-memory state from the documents read at startup: the
    /// global document, the active profile's document, the list of known
    /// profile names, and the active profile's name.
    pub fn from_parts(savedata: SaveData, doc: Profile, profiles: Vec<String>, profile_name: String)
        -> (r: State)
        requires
            savedata.wf(),
            doc.wf(),
            uniq_names(profiles@),
            has_name(profiles@, profile_name@),
        ensures
            r.wf(),
            r.url == savedata.url,
            r.syncing,
            r.commands == savedata.commands,
            r.constants == savedata.constants,
            r.streams == savedata.streams,
            r.controllers == doc.controllers,
            r.controller_names == doc.controller_names,
            r.stream_to_axis == doc.stream_to_axis,
            r.driver_constants == doc.constants,
            r.profile == profile_name,
            r.profiles == profiles,
            forall|c: Seq<char>, b: Binding|
                #[trigger] r.bindings.spec_has_binding(c, b) == BindingsMap::list_has_pair(
                    doc.command_to_bindings@,
                    c,
                    b,
                ),
    {
        let bindings = BindingsMap::from_forward(&doc.command_to_bindings);
        State {
            url: savedata.url,
            syncing: true,
            commands: savedata.commands,
            bindings,
            controllers: doc.controllers,
            controller_names: doc.controller_names,
            profile: profile_name,
            profiles,
            constants: savedata.constants,
            driver_constants: doc.constants,
            stream_to_axis: doc.stream_to_axis,
            streams: savedata.streams,
        }
    }

    /// Switch the in-memory state to profile `name`, whose document the
    /// shell has loaded: the profile-owned fields are replaced, the global
    /// vocabulary and constants stay, and an unseen name joins the profile
    /// list.
    pub fn set_profile_loaded(&mut self, name: String, doc: Profile)
        requires
            old(self).wf(),
            doc.wf(),
        ensures
            final(self).wf(),
            final(self).profile == name,
            if has_name(old(self).profiles@, name@) {
                final(self).profiles == old(self).profiles
            } else {
                final(self).profiles@ == old(self).profiles@.push(name)
            },
            final(self).controllers == doc.controllers,
            final(self).controller_names == doc.controller_names,
            final(self).stream_to_axis == doc.stream_to_axis,
            final(self).driver_constants == doc.constants,
            final(self).url == old(self).url,
            final(self).syncing == old(self).syncing,
            final(self).commands == old(self).commands,
            final(self).streams == old(self).streams,
            final(self).constants == old(self).constants,
            forall|c: Seq<char>, b: Binding|
                #[trigger] final(self).bindings.spec_has_binding(c, b)
                    == BindingsMap::list_has_pair(doc.command_to_bindings@, c, b),
    {
        crate::kv::insert_name(&mut self.profiles, name.clone());
        proof {
            assert(has_name(self.profiles@, name@));
        }
        self.profile = name;
        self.bindings = BindingsMap::from_forward(&doc.command_to_bindings);
        self.controllers = doc.controllers;
        self.controller_names = doc.controller_names;
        self.stream_to_axis = doc.stream_to_axis;
        self.driver_constants = doc.constants;
    }

    /// Is `binding` valid on slot `controller` under the slot's current
    /// shape? An out-of-range slot never validates.
    pub fn valid_binding(&self, controller: u8, binding: Button) -> (r: bool)
        requires
            self.wf(),
        ensures
            r == ((controller as int) < CONTROLLER_SLOTS && self.controllers@[
                controller as int
            ].spec_valid_binding(binding)),
    {
        if (controller as usize) < self.controllers.len() {
            self.controllers[controller as usize].valid_binding(binding)
        } else {
            false
        }
    }

    /// The display name of slot `c`: its assigned name, or its slot number
    /// when no name was given.
    pub open spec fn spec_controller_name(self, c: u8) -> Seq<char> {
        if self.controller_names@[c as int]@.len() == 0 {
            dec_digits(c as nat)
        } else {
            self.controller_names@[c as int]@
        }
    }

    /// The display name of slot `controller`: its assigned name, or its slot
    /// number when no name was given.
    pub fn controller_name(&self, controller: u8) -> (r: String)
        requires
            self.wf(),
            (controller as int) < CONTROLLER_SLOTS,
        ensures
            r@ == self.spec_controller_name(controller),
    {
        let name = &self.controller_names[controller as usize];
        if name.as_str().is_empty() {
            u64_to_string(controller as u64)
        } else {
            name.clone()
        }
    }

    /// Command `c` is bound somewhere: in the active profile's index or in
    /// any of the sibling documents.
    pub open spec fn spec_is_used(
        self,
        others: Seq<(String, Profile)>,
        c: Seq<char>,
    ) -> bool {
        self.bindings.spec_is_used(c) || exists|i: int|
            0 <= i < others.len() && doc_uses_command((#[trigger] others[i]).1, c)
    }

    /// Stream `s` is routed somewhere: in the active profile's routing or in
    /// any of the sibling documents.
    pub open spec fn spec_is_stream_used(
        self,
        others: Seq<(String, Profile)>,
        s: Seq<char>,
    ) -> bool {
        has_key(self.stream_to_axis@, s) || exists|i: int|
            0 <= i < others.len() && doc_uses_stream((#[trigger] others[i]).1, s)
    }

    /// Is `command` bound in any known profile? `others` holds the sibling
    /// profiles' documents, which the shell loads before asking.
    pub fn is_used(&self, command: &String, others: &Vec<(String, Profile)>) -> (r: bool)
        requires
            self.wf(),
            all_docs_wf(others@),
        ensures
            r == self.spec_is_used(others@, command@),
    {
        if self.bindings.is_used(command) {
            return true;
        }
        let mut i: usize = 0;
        while i < others.len()
            invariant
                i <= others@.len(),
                all_docs_wf(others@),
                forall|j: int| 0 <= j < i ==> !doc_uses_command((#[trigger] others@[j]).1, command@),
            decreases others@.len() - i,
        {
            let doc = &others[i].1;
            match find_key(&doc.command_to_bindings, command) {
                Some(j) => {
                    proof {
                        assert((#[trigger] others@[i as int]).1.wf());
                        lemma_key_at(doc.command_to_bindings@, command@, j as int);
                    }
                    if doc.command_to_bindings[j].1.len() > 0 {
                        return true;
                    }
                }
                None => {}
            }
            i += 1;
        }
        false
    }

    /// Is `stream` routed in any known profile?
    pub fn is_stream_used(&self, stream: &String, others: &Vec<(String, Profile)>) -> (r: bool)
        requires
            self.wf(),
            all_docs_wf(others@),
        ensures
            r == self.spec_is_stream_used(others@, stream@),
    {
        if find_key(&self.stream_to_axis, stream).is_some() {
            return true;
        }
        let mut i: usize = 0;
        while i < others.len()
            invariant
                i <= others@.len(),
                forall|j: int| 0 <= j < i ==> !doc_uses_stream((#[trigger] others@[j]).1, stream@),
            decreases others@.len() - i,
        {
            if find_key(&others[i].1.stream_to_axis, stream).is_some() {
                return true;
            }
            i += 1;
        }
        false
    }
}

/// The closed set of editing events the UI can raise against the state.
#[derive(Debug)]
pub enum GlobalEvents {
    AddBinding(Binding, String),
    RemoveBinding(Binding, String),
    AddCommand(String),
    RemoveCommand(String),
    DisplayError(String),
    Save,
    RenameCommand(String, String),
    AddProfile(String),
    SetProfile(String),
    AddOption(crate::constants::OptionLocation, Constants),
    AddOptionDriver(crate::constants::OptionLocation, Constants),
    RemoveOption(crate::constants::OptionLocation),
    RemoveOptionDriver(crate::constants::OptionLocation),
    SetStream(String, u8, u8),
    AddStream(String),
    RenameStream(String, String),
    RemoveStream(String),
}

/// What applying one event asks of the shell: persist the main documents,
/// show an error, rewrite the sibling profile documents it was handed, or
/// run the profile-switch procedure.
#[derive(Debug)]
pub struct ApplyOutcome {
    pub dirty: bool,
    pub error: Option<String>,
    pub write_profiles: bool,
    pub switch_to: Option<String>,
}

/// The event was applied: persist, no error, no fan-out, no switch.
pub open spec fn ok_dirty(r: ApplyOutcome) -> bool {
    r.dirty && r.error is None && !r.write_profiles && r.switch_to is None
}

/// The event changed nothing that needs persisting and raised no error.
pub open spec fn quiet(r: ApplyOutcome) -> bool {
    !r.dirty && r.error is None && !r.write_profiles && r.switch_to is None
}

/// The event was refused: nothing persisted, an error to show.
pub open spec fn refused(r: ApplyOutcome) -> bool {
    !r.dirty && r.error is Some && !r.write_profiles && r.switch_to is None
}

/// The fields no event ever touches directly.
pub open spec fn same_fixed(a: State, b: State) -> bool {
    &&& b.url == a.url
    &&& b.syncing == a.syncing
    &&& b.profile == a.profile
    &&& b.controllers == a.controllers
    &&& b.controller_names == a.controller_names
}

/// Only the binding index may differ.
pub open spec fn only_bindings_changed(a: State, b: State) -> bool {
    &&& same_fixed(a, b)
    &&& b.commands == a.commands
    &&& b.profiles == a.profiles
    &&& b.constants == a.constants
    &&& b.driver_constants == a.driver_constants
    &&& b.stream_to_axis == a.stream_to_axis
    &&& b.streams == a.streams
}

/// Only the command vocabulary and the binding index may differ.
pub open spec fn only_commands_changed(a: State, b: State) -> bool {
    &&& same_fixed(a, b)
    &&& b.profiles == a.profiles
    &&& b.constants == a.constants
    &&& b.driver_constants == a.driver_constants
    &&& b.stream_to_axis == a.stream_to_axis
    &&& b.streams == a.streams
}

/// Only the profile-name list may differ.
pub open spec fn only_profiles_changed(a: State, b: State) -> bool {
    &&& same_fixed(a, b)
    &&& b.commands == a.commands
    &&& b.bindings == a.bindings
    &&& b.constants == a.constants
    &&& b.driver_constants == a.driver_constants
    &&& b.stream_to_axis == a.stream_to_axis
    &&& b.streams == a.streams
}

/// Only the global constant tree may differ.
pub open spec fn only_constants_changed(a: State, b: State) -> bool {
    &&& same_fixed(a, b)
    &&& b.commands == a.commands
    &&& b.bindings == a.bindings
    &&& b.profiles == a.profiles
    &&& b.driver_constants == a.driver_constants
    &&& b.stream_to_axis == a.stream_to_axis
    &&& b.streams == a.streams
}

/// Only the override constant tree may differ.
pub open spec fn only_driver_changed(a: State, b: State) -> bool {
    &&& same_fixed(a, b)
    &&& b.commands == a.commands
    &&& b.bindings == a.bindings
    &&& b.profiles == a.profiles
    &&& b.constants == a.constants
    &&& b.stream_to_axis == a.stream_to_axis
    &&& b.streams == a.streams
}

/// Only the two constant trees may differ.
pub open spec fn only_trees_changed(a: State, b: State) -> bool {
    &&& same_fixed(a, b)
    &&& b.commands == a.commands
    &&& b.bindings == a.bindings
    &&& b.profiles == a.profiles
    &&& b.stream_to_axis == a.stream_to_axis
    &&& b.streams == a.streams
}

/// Only the stream routing may differ.
pub open spec fn only_routing_changed(a: State, b: State) -> bool {
    &&& same_fixed(a, b)
    &&& b.commands == a.commands
    &&& b.bindings == a.bindings
    &&& b.profiles == a.profiles
    &&& b.constants == a.constants
    &&& b.driver_constants == a.driver_constants
    &&& b.streams == a.streams
}

/// Only the stream vocabulary and routing may differ.
pub open spec fn only_streams_changed(a: State, b: State) -> bool {
    &&& same_fixed(a, b)
    &&& b.commands == a.commands
    &&& b.bindings == a.bindings
    &&& b.profiles == a.profiles
    &&& b.constants == a.constants
    &&& b.driver_constants == a.driver_constants
}

/// Inserting a name into a duplicate-free list: present already, nothing
/// moves; otherwise it lands at the end.
pub open spec fn names_inserted(pre: Seq<String>, post: Seq<String>, v: String) -> bool {
    if has_name(pre, v@) {
        post == pre
    } else {
        post == pre.push(v)
    }
}

/// Removing a name from a duplicate-free list: absent, nothing moves;
/// otherwise exactly its entry goes.
pub open spec fn names_removed(pre: Seq<String>, post: Seq<String>, n: Seq<char>) -> bool {
    if !has_name(pre, n) {
        post == pre
    } else {
        exists|i: int| 0 <= i < pre.len() && (#[trigger] pre[i]@) == n && post == pre.remove(i)
    }
}

/// Routing stream `key` to `val`: an existing entry is overwritten in
/// place, a new one lands at the end.
pub open spec fn sta_set(
    pre: Seq<(String, (u8, u8))>,
    post: Seq<(String, (u8, u8))>,
    key: String,
    val: (u8, u8),
) -> bool {
    if has_key(pre, key@) {
        post == pre.update(crate::kv::idx_of(pre, key@), (pre[crate::kv::idx_of(pre, key@)].0, val))
    } else {
        post == pre.push((key, val))
    }
}

/// The sibling documents after a command rename: same names, each document's
/// command map renamed, everything else untouched.
pub open spec fn docs_cmds_renamed(
    pre: Seq<(String, Profile)>,
    post: Seq<(String, Profile)>,
    oldn: Seq<char>,
    newn: Seq<char>,
) -> bool {
    &&& post.len() == pre.len()
    &&& forall|i: int|
        0 <= i < pre.len() ==> {
            let a = #[trigger] pre[i];
            let b = post[i];
            &&& b.0 == a.0
            &&& b.1.wf()
            &&& crate::kv::alist_renamed(
                a.1.command_to_bindings@,
                b.1.command_to_bindings@,
                oldn,
                newn,
            )
            &&& b.1.stream_to_axis == a.1.stream_to_axis
            &&& b.1.controllers == a.1.controllers
            &&& b.1.controller_names == a.1.controller_names
            &&& b.1.constants == a.1.constants
        }
}

/// The sibling documents after a schema-key removal: same names, each
/// document's constant tree with the path removed, everything else
/// untouched.
pub open spec fn docs_key_removed(
    pre: Seq<(String, Profile)>,
    post: Seq<(String, Profile)>,
    p: Seq<Seq<char>>,
) -> bool {
    &&& post.len() == pre.len()
    &&& forall|i: int|
        0 <= i < pre.len() ==> {
            let a = #[trigger] pre[i];
            let b = post[i];
            &&& b.0 == a.0
            &&& b.1.wf()
            &&& crate::constants::spec_removed(a.1.constants, b.1.constants, p)
            &&& b.1.command_to_bindings == a.1.command_to_bindings
            &&& b.1.stream_to_axis == a.1.stream_to_axis
            &&& b.1.controllers == a.1.controllers
            &&& b.1.controller_names == a.1.controller_names
        }
}

impl State {
    /// Apply one editing event. `others` holds the loaded documents of the
    /// sibling (non-active) profiles; a rename or schema-key removal
    /// rewrites them in place and asks the shell, through the outcome, to
    /// persist them. Unsafe removals — of a command or stream still used by
    /// any profile — are refused here, not by callers.
    pub fn apply_event(
        &mut self,
        event: GlobalEvents,
        others: &mut Vec<(String, Profile)>,
    ) -> (r: ApplyOutcome)
        requires
            old(self).wf(),
            all_docs_wf(old(others)@),
            match event {
                GlobalEvents::RemoveBinding(b, c) => old(self).bindings.spec_has_binding(c@, b),
                GlobalEvents::AddOption(_, v) => v.wf(),
                GlobalEvents::AddOptionDriver(_, v) => v.wf(),
                GlobalEvents::RemoveOption(k) => k@.len() > 0,
                GlobalEvents::RemoveOptionDriver(k) => k@.len() > 0,
                _ => true,
            },
        ensures
            final(self).wf(),
            all_docs_wf(final(others)@),
            match event {
                GlobalEvents::AddBinding(b, cmd) => {
                    &&& *final(others) == *old(others)
                    &&& only_bindings_changed(*old(self), *final(self))
                    &&& if old(self).bindings.spec_has_binding(cmd@, b) {
                        final(self).bindings == old(self).bindings
                    } else {
                        BindingsMap::add_rel(old(self).bindings, final(self).bindings, cmd@, b)
                    }
                    &&& ok_dirty(r)
                },
                GlobalEvents::RemoveBinding(b, cmd) => {
                    &&& *final(others) == *old(others)
                    &&& only_bindings_changed(*old(self), *final(self))
                    &&& BindingsMap::remove_rel(old(self).bindings, final(self).bindings, cmd@, b)
                    &&& ok_dirty(r)
                },
                GlobalEvents::AddCommand(name) => {
                    &&& *final(others) == *old(others)
                    &&& only_commands_changed(*old(self), *final(self))
                    &&& final(self).bindings == old(self).bindings
                    &&& names_inserted(old(self).commands@, final(self).commands@, name)
                    &&& ok_dirty(r)
                },
                GlobalEvents::RemoveCommand(name) => {
                    &&& *final(others) == *old(others)
                    &&& if old(self).spec_is_used(old(others)@, name@) {
                        *final(self) == *old(self) && refused(r)
                    } else {
                        &&& only_commands_changed(*old(self), *final(self))
                        &&& names_removed(old(self).commands@, final(self).commands@, name@)
                        &&& BindingsMap::remove_cmd_rel(
                            old(self).bindings,
                            final(self).bindings,
                            name@,
                        )
                        &&& ok_dirty(r)
                    }
                },
                GlobalEvents::DisplayError(msg) => {
                    &&& *final(others) == *old(others)
                    &&& *final(self) == *old(self)
                    &&& !r.dirty && !r.write_profiles && r.switch_to is None
                    &&& r.error == Some(msg)
                },
                GlobalEvents::Save => {
                    &&& *final(others) == *old(others)
                    &&& *final(self) == *old(self)
                    &&& ok_dirty(r)
                },
                GlobalEvents::RenameCommand(oldn, newn) => {
                    if has_name(old(self).commands@, newn@) || has_key(
                        old(self).bindings.fwd(),
                        newn@,
                    ) {
                        &&& *final(others) == *old(others)
                        &&& *final(self) == *old(self)
                        &&& refused(r)
                    } else {
                        &&& only_commands_changed(*old(self), *final(self))
                        &&& exists|mid: Seq<String>|
                            #![auto]
                            names_removed(old(self).commands@, mid, oldn@) && final(self).commands@
                                == mid.push(newn)
                        &&& if has_key(old(self).bindings.fwd(), oldn@) {
                            BindingsMap::rename_rel(
                                old(self).bindings,
                                final(self).bindings,
                                oldn@,
                                newn@,
                            )
                        } else {
                            final(self).bindings == old(self).bindings
                        }
                        &&& docs_cmds_renamed(old(others)@, final(others)@, oldn@, newn@)
                        &&& r.dirty && r.error is None && r.write_profiles && r.switch_to is None
                    }
                },
                GlobalEvents::AddProfile(name) => {
                    &&& *final(others) == *old(others)
                    &&& only_profiles_changed(*old(self), *final(self))
                    &&& names_inserted(old(self).profiles@, final(self).profiles@, name)
                    &&& quiet(r)
                },
                GlobalEvents::SetProfile(name) => {
                    &&& *final(others) == *old(others)
                    &&& *final(self) == *old(self)
                    &&& !r.dirty && r.error is None && !r.write_profiles
                    &&& r.switch_to == Some(name)
                },
                GlobalEvents::AddOption(key, value) => {
                    &&& *final(others) == *old(others)
                    &&& if old(self).constants.spec_conflicts(crate::constants::path_view(key@)) {
                        *final(self) == *old(self) && refused(r)
                    } else {
                        &&& only_constants_changed(*old(self), *final(self))
                        &&& crate::constants::spec_added(
                            old(self).constants,
                            final(self).constants,
                            crate::constants::path_view(key@),
                            value,
                        )
                        &&& ok_dirty(r)
                    }
                },
                GlobalEvents::AddOptionDriver(key, value) => {
                    &&& *final(others) == *old(others)
                    &&& if old(self).driver_constants.spec_conflicts(
                        crate::constants::path_view(key@),
                    ) {
                        *final(self) == *old(self) && refused(r)
                    } else {
                        &&& only_driver_changed(*old(self), *final(self))
                        &&& crate::constants::spec_added(
                            old(self).driver_constants,
                            final(self).driver_constants,
                            crate::constants::path_view(key@),
                            value,
                        )
                        &&& ok_dirty(r)
                    }
                },
                GlobalEvents::RemoveOption(key) => {
                    &&& only_trees_changed(*old(self), *final(self))
                    &&& crate::constants::spec_removed(
                        old(self).constants,
                        final(self).constants,
                        crate::constants::path_view(key@),
                    )
                    &&& crate::constants::spec_removed(
                        old(self).driver_constants,
                        final(self).driver_constants,
                        crate::constants::path_view(key@),
                    )
                    &&& docs_key_removed(
                        old(others)@,
                        final(others)@,
                        crate::constants::path_view(key@),
                    )
                    &&& r.dirty && r.error is None && r.write_profiles && r.switch_to is None
                },
                GlobalEvents::RemoveOptionDriver(key) => {
                    &&& *final(others) == *old(others)
                    &&& only_driver_changed(*old(self), *final(self))
                    &&& crate::constants::spec_removed(
                        old(self).driver_constants,
                        final(self).driver_constants,
                        crate::constants::path_view(key@),
                    )
                    &&& ok_dirty(r)
                },
                GlobalEvents::SetStream(name, c, a) => {
                    &&& *final(others) == *old(others)
                    &&& only_routing_changed(*old(self), *final(self))
                    &&& sta_set(
                        old(self).stream_to_axis@,
                        final(self).stream_to_axis@,
                        name,
                        (c, a),
                    )
                    &&& ok_dirty(r)
                },
                GlobalEvents::AddStream(name) => {
                    &&& *final(others) == *old(others)
                    &&& only_streams_changed(*old(self), *final(self))
                    &&& final(self).stream_to_axis == old(self).stream_to_axis
                    &&& names_inserted(old(self).streams@, final(self).streams@, name)
                    &&& ok_dirty(r)
                },
                GlobalEvents::RenameStream(oldn, newn) => {
                    if has_name(old(self).streams@, newn@) {
                        &&& *final(others) == *old(others)
                        &&& *final(self) == *old(self)
                        &&& refused(r)
                    } else {
                        &&& *final(others) == *old(others)
                        &&& only_streams_changed(*old(self), *final(self))
                        &&& exists|mid: Seq<String>|
                            #![auto]
                            names_removed(old(self).streams@, mid, oldn@) && final(self).streams@
                                == mid.push(newn)
                        &&& crate::kv::alist_renamed(
                            old(self).stream_to_axis@,
                            final(self).stream_to_axis@,
                            oldn@,
                            newn@,
                        )
                        &&& ok_dirty(r)
                    }
                },
                GlobalEvents::RemoveStream(name) => {
                    &&& *final(others) == *old(others)
                    &&& if old(self).spec_is_stream_used(old(others)@, name@) {
                        *final(self) == *old(self) && refused(r)
                    } else {
                        &&& only_streams_changed(*old(self), *final(self))
                        &&& final(self).stream_to_axis == old(self).stream_to_axis
                        &&& names_removed(old(self).streams@, final(self).streams@, name@)
                        &&& ok_dirty(r)
                    }
                },
            },
    {
        match event {
            GlobalEvents::AddBinding(binding, command) => {
                self.bindings.add_binding(command, binding);
                ApplyOutcome { dirty: true, error: None, write_profiles: false, switch_to: None }
            }
            GlobalEvents::RemoveBinding(binding, command) => {
                self.bindings.remove_binding(&command, binding);
                ApplyOutcome { dirty: true, error: None, write_profiles: false, switch_to: None }
            }
            GlobalEvents::AddCommand(name) => {
                crate::kv::insert_name(&mut self.commands, name);
                ApplyOutcome { dirty: true, error: None, write_profiles: false, switch_to: None }
            }
            GlobalEvents::RemoveCommand(name) => {
                if self.is_used(&name, others) {
                    ApplyOutcome {
                        dirty: false,
                        error: Some(String::from_str("can't delete a command that is still used")),
                        write_profiles: false,
                        switch_to: None,
                    }
                } else {
                    crate::kv::remove_name(&mut self.commands, &name);
                    self.bindings.remove_command(&name);
                    ApplyOutcome {
                        dirty: true,
                        error: None,
                        write_profiles: false,
                        switch_to: None,
                    }
                }
            }
            GlobalEvents::DisplayError(msg) => {
                ApplyOutcome {
                    dirty: false,
                    error: Some(msg),
                    write_profiles: false,
                    switch_to: None,
                }
            }
            GlobalEvents::Save => {
                ApplyOutcome { dirty: true, error: None, write_profiles: false, switch_to: None }
            }
            GlobalEvents::RenameCommand(oldn, newn) => {
                let clash = match crate::kv::find_name(&self.commands, &newn) {
                    Some(_) => true,
                    None => find_key(&self.bindings.command_to_bindings, &newn).is_some(),
                };
                if clash {
                    return ApplyOutcome {
                        dirty: false,
                        error: Some(String::from_str("command of that name already exists")),
                        write_profiles: false,
                        switch_to: None,
                    };
                }
                crate::kv::remove_name(&mut self.commands, &oldn);
                proof {
                    crate::kv::lemma_push_name(self.commands@, newn);
                }
                self.commands.push(newn.clone());

                if find_key(&self.bindings.command_to_bindings, &oldn).is_some() {
                    proof {
                        assert(has_key(self.bindings.fwd(), oldn@));
                    }
                    self.bindings.rename_binding(&oldn, newn.clone());
                }

                let ghost docs_pre = others@;
                let mut i: usize = 0;
                while i < others.len()
                    invariant
                        others@.len() == docs_pre.len(),
                        i <= docs_pre.len(),
                        all_docs_wf(docs_pre),
                        forall|t: int|
                            0 <= t < i ==> {
                                let a = #[trigger] docs_pre[t];
                                let b = others@[t];
                                &&& b.0 == a.0
                                &&& b.1.wf()
                                &&& crate::kv::alist_renamed(
                                    a.1.command_to_bindings@,
                                    b.1.command_to_bindings@,
                                    oldn@,
                                    newn@,
                                )
                                &&& b.1.stream_to_axis == a.1.stream_to_axis
                                &&& b.1.controllers == a.1.controllers
                                &&& b.1.controller_names == a.1.controller_names
                                &&& b.1.constants == a.1.constants
                            },
                        forall|t: int|
                            i <= t < docs_pre.len() ==> (#[trigger] others@[t]) == docs_pre[t],
                    decreases docs_pre.len() - i,
                {
                    proof {
                        assert(others@[i as int] == docs_pre[i as int]);
                        assert((#[trigger] docs_pre[i as int]).1.wf());
                    }
                    crate::kv::rename_alist_key(
                        &mut others[i].1.command_to_bindings,
                        &oldn,
                        &newn,
                    );
                    i += 1;
                }
                proof {
                    assert forall|t: int| 0 <= t < others@.len() implies (#[trigger] others@[
                        t
                    ]).1.wf() by {
                        assert((#[trigger] docs_pre[t]).1.wf());
                    }
                }
                ApplyOutcome { dirty: true, error: None, write_profiles: true, switch_to: None }
            }
            GlobalEvents::AddProfile(name) => {
                crate::kv::insert_name(&mut self.profiles, name);
                ApplyOutcome { dirty: false, error: None, write_profiles: false, switch_to: None }
            }
            GlobalEvents::SetProfile(name) => {
                ApplyOutcome {
                    dirty: false,
                    error: None,
                    write_profiles: false,
                    switch_to: Some(name),
                }
            }
            GlobalEvents::AddOption(key, value) => {
                let conflict = self.constants.add_option(&key, value);
                if conflict {
                    ApplyOutcome {
                        dirty: false,
                        error: Some(String::from_str("failed to add constants")),
                        write_profiles: false,
                        switch_to: None,
                    }
                } else {
                    ApplyOutcome {
                        dirty: true,
                        error: None,
                        write_profiles: false,
                        switch_to: None,
                    }
                }
            }
            GlobalEvents::AddOptionDriver(key, value) => {
                let conflict = self.driver_constants.add_option(&key, value);
                if conflict {
                    ApplyOutcome {
                        dirty: false,
                        error: Some(String::from_str("failed to add constant")),
                        write_profiles: false,
                        switch_to: None,
                    }
                } else {
                    ApplyOutcome {
                        dirty: true,
                        error: None,
                        write_profiles: false,
                        switch_to: None,
                    }
                }
            }
            GlobalEvents::RemoveOption(key) => {
                self.constants.remove_key(&key);
                self.driver_constants.remove_key(&key);
                let ghost docs_pre = others@;
                let mut i: usize = 0;
                while i < others.len()
                    invariant
                        others@.len() == docs_pre.len(),
                        i <= docs_pre.len(),
                        all_docs_wf(docs_pre),
                        key@.len() > 0,
                        forall|t: int|
                            0 <= t < i ==> {
                                let a = #[trigger] docs_pre[t];
                                let b = others@[t];
                                &&& b.0 == a.0
                                &&& b.1.wf()
                                &&& crate::constants::spec_removed(
                                    a.1.constants,
                                    b.1.constants,
                                    crate::constants::path_view(key@),
                                )
                                &&& b.1.command_to_bindings == a.1.command_to_bindings
                                &&& b.1.stream_to_axis == a.1.stream_to_axis
                                &&& b.1.controllers == a.1.controllers
                                &&& b.1.controller_names == a.1.controller_names
                            },
                        forall|t: int|
                            i <= t < docs_pre.len() ==> (#[trigger] others@[t]) == docs_pre[t],
                    decreases docs_pre.len() - i,
                {
                    proof {
                        assert(others@[i as int] == docs_pre[i as int]);
                        assert((#[trigger] docs_pre[i as int]).1.wf());
                    }
                    others[i].1.constants.remove_key(&key);
                    i += 1;
                }
                proof {
                    assert forall|t: int| 0 <= t < others@.len() implies (#[trigger] others@[
                        t
                    ]).1.wf() by {
                        assert((#[trigger] docs_pre[t]).1.wf());
                    }
                }
                ApplyOutcome { dirty: true, error: None, write_profiles: true, switch_to: None }
            }
            GlobalEvents::RemoveOptionDriver(key) => {
                self.driver_constants.remove_key(&key);
                ApplyOutcome { dirty: true, error: None, write_profiles: false, switch_to: None }
            }
            GlobalEvents::SetStream(name, controller, axis) => {
                let ghost pre = self.stream_to_axis@;
                match find_key(&self.stream_to_axis, &name) {
                    Some(i) => {
                        proof {
                            lemma_key_at(pre, name@, i as int);
                        }
                        self.stream_to_axis[i].1 = (controller, axis);
                        proof {
                            let post = self.stream_to_axis@;
                            assert(post[i as int] =~= (pre[i as int].0, (controller, axis)));
                            assert(post =~= pre.update(
                                i as int,
                                (pre[i as int].0, (controller, axis)),
                            ));
                            crate::kv::lemma_update_val(pre, i as int, (controller, axis));
                        }
                    }
                    None => {
                        proof {
                            crate::kv::lemma_push_entry(pre, name, (controller, axis));
                        }
                        self.stream_to_axis.push((name, (controller, axis)));
                    }
                }
                ApplyOutcome { dirty: true, error: None, write_profiles: false, switch_to: None }
            }
            GlobalEvents::AddStream(name) => {
                crate::kv::insert_name(&mut self.streams, name);
                ApplyOutcome { dirty: true, error: None, write_profiles: false, switch_to: None }
            }
            GlobalEvents::RenameStream(oldn, newn) => {
                if crate::kv::find_name(&self.streams, &newn).is_some() {
                    return ApplyOutcome {
                        dirty: false,
                        error: Some(String::from_str("stream of that name already exists")),
                        write_profiles: false,
                        switch_to: None,
                    };
                }
                crate::kv::remove_name(&mut self.streams, &oldn);
                proof {
                    crate::kv::lemma_push_name(self.streams@, newn);
                }
                self.streams.push(newn.clone());
                crate::kv::rename_alist_key(&mut self.stream_to_axis, &oldn, &newn);
                ApplyOutcome { dirty: true, error: None, write_profiles: false, switch_to: None }
            }
            GlobalEvents::RemoveStream(name) => {
                if self.is_stream_used(&name, others) {
                    ApplyOutcome {
                        dirty: false,
                        error: Some(String::from_str("can't delete a stream that is still used")),
                        write_profiles: false,
                        switch_to: None,
                    }
                } else {
                    crate::kv::remove_name(&mut self.streams, &name);
                    ApplyOutcome {
                        dirty: true,
                        error: None,
                        write_profiles: false,
                        switch_to: None,
                    }
                }
            }
        }
    }
}

impl Binding {
    /// The human-readable description of a binding: the slot it is on, the
    /// button's label under that slot's shape, and the run condition.
    pub fn show(&self, env: &State) -> (r: String)
        requires
            env.wf(),
            (self.controller as int) < CONTROLLER_SLOTS,
            self.button.location is Button && env.controllers@[self.controller as int] is XBox
                ==> 1 <= self.button.button <= 10,
            !(self.button.location is Analog && env.controllers@[self.controller as int]
                is Generic),
        ensures
            r@ == "on "@ + env.spec_controller_name(self.controller) + " to "@
                + env.controllers@[self.controller as int].spec_button_name(self.button) + " "@
                + self.during.spec_str(),
    {
        let cname = env.controller_name(self.controller);
        let bname = env.controllers[self.controller as usize].button_name(&self.button);
        let mut out = String::from_str("on ");
        out.append(cname.as_str());
        out.append(" to ");
        out.append(bname.as_str());
        out.append(" ");
        out.append(self.during.get_str());
        proof {
            assert(out@ =~= "on "@ + env.spec_controller_name(self.controller) + " to "@
                + env.controllers@[self.controller as int].spec_button_name(self.button) + " "@
                + self.during.spec_str());
        }
        out
    }
}

} // verus!
