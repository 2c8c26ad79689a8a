//! The agent harness that subcontext works with.

use vstd::prelude::*;

use crate::text::{cat, cat3, Text};

verus! {

/// An agent harness: its name in paths and flags, and its name in messages.
pub struct Agent {
    pub name: String,
    pub title: String,
}

/// The view of an agent harness.
pub struct AgentView {
    pub name: Text,
    pub title: Text,
}

impl View for Agent {
    type V = AgentView;

    open spec fn view(&self) -> AgentView {
        AgentView { name: self.name@, title: self.title@ }
    }
}

impl AgentView {
    /// The directory that holds the settings of the harness.
    pub open spec fn dir(self) -> Text {
        "."@ + self.name
    }

    /// The settings of a project, as messages name them.
    pub open spec fn settings_name(self) -> Text {
        "."@ + self.name + "/settings.local.json"@
    }

    /// The file in the home directory that holds the configuration of the harness.
    pub open spec fn config_file(self) -> Text {
        "."@ + self.name + ".json"@
    }

    /// The flag that tells `subcontext startup` which harness runs it.
    pub open spec fn flag(self) -> Text {
        "--"@ + self.name + "-code"@
    }
}

impl Agent {
    /// The directory that holds the settings of the harness.
    pub fn dir(&self) -> (r: String)
        ensures
            r@ == self@.dir(),
    {
        cat(".", self.name.as_str())
    }

    /// The settings of a project, as messages name them.
    pub fn settings_name(&self) -> (r: String)
        ensures
            r@ == self@.settings_name(),
    {
        cat3(".", self.name.as_str(), "/settings.local.json")
    }

    /// The file in the home directory that holds the configuration of the harness.
    pub fn config_file(&self) -> (r: String)
        ensures
            r@ == self@.config_file(),
    {
        cat3(".", self.name.as_str(), ".json")
    }

    /// The flag that tells `subcontext startup` which harness runs it.
    pub fn flag(&self) -> (r: String)
        ensures
            r@ == self@.flag(),
    {
        cat3("--", self.name.as_str(), "-code")
    }
}

} // verus!
