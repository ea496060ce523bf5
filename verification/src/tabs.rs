//! The fixed set of editor tabs and their display names.

use vstd::prelude::*;

verus! {

#[derive(Debug, PartialEq, Eq, Structural, PartialOrd, Ord, Clone, Copy)]
pub enum TabType {
    Constants,
    DriverConstants,
    FromBindings,
    FromCommands,
    ManageCommands,
    ManageControllers,
    ManageSteams,
    Profiles,
    Streams,
    Syncing,
}

impl TabType {
    /// The fixed display name of each tab.
    pub open spec fn spec_name(self) -> Seq<char> {
        match self {
            TabType::Constants => "constants"@,
            TabType::DriverConstants => "driver constants"@,
            TabType::FromBindings => "from bindings"@,
            TabType::FromCommands => "from commands"@,
            TabType::ManageCommands => "manage commands"@,
            TabType::ManageControllers => "manage controllers"@,
            TabType::ManageSteams => "manage streams"@,
            TabType::Profiles => "manage profiles"@,
            TabType::Streams => "streams"@,
            TabType::Syncing => "syncing"@,
        }
    }

    pub fn name(&self) -> (r: &'static str)
        ensures
            r@ == self.spec_name(),
    {
        match self {
            TabType::Constants => "constants",
            TabType::DriverConstants => "driver constants",
            TabType::FromBindings => "from bindings",
            TabType::FromCommands => "from commands",
            TabType::ManageCommands => "manage commands",
            TabType::ManageControllers => "manage controllers",
            TabType::ManageSteams => "manage streams",
            TabType::Profiles => "manage profiles",
            TabType::Streams => "streams",
            TabType::Syncing => "syncing",
        }
    }

    /// Every tab, in display order.
    pub fn all() -> (r: Vec<TabType>)
        ensures
            r@ =~= seq![
                TabType::Constants,
                TabType::DriverConstants,
                TabType::FromBindings,
                TabType::FromCommands,
                TabType::ManageCommands,
                TabType::ManageControllers,
                TabType::ManageSteams,
                TabType::Profiles,
                TabType::Streams,
                TabType::Syncing,
            ],
    {
        let mut v: Vec<TabType> = Vec::new();
        v.push(TabType::Constants);
        v.push(TabType::DriverConstants);
        v.push(TabType::FromBindings);
        v.push(TabType::FromCommands);
        v.push(TabType::ManageCommands);
        v.push(TabType::ManageControllers);
        v.push(TabType::ManageSteams);
        v.push(TabType::Profiles);
        v.push(TabType::Streams);
        v.push(TabType::Syncing);
        v
    }
}

} // verus!
