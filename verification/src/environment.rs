//! What the library knows of the environment that it runs in.

use vstd::prelude::*;

use crate::agent::{Agent, AgentView};
use crate::text::Text;

verus! {

/// Environment variables and platform, as the program found them.
pub struct Env {
    /// `GIT_SUBCONTEXT_PATH`, where it is set.
    pub subcontext_path: Option<String>,
    /// `HOME`, where it is set.
    pub home: Option<String>,
    /// `USERPROFILE`, where it is set.
    pub user_profile: Option<String>,
    /// The operating system, such as `linux`.
    pub os: String,
    /// The processor architecture, such as `x86_64`.
    pub arch: String,
    /// The agent harness that is set up.
    pub agent: Agent,
}

/// The view of an environment.
pub struct EnvView {
    pub subcontext_path: Option<Text>,
    pub home: Option<Text>,
    pub user_profile: Option<Text>,
    pub os: Text,
    pub arch: Text,
    pub agent: AgentView,
}

impl View for Env {
    type V = EnvView;

    open spec fn view(&self) -> EnvView {
        EnvView {
            subcontext_path: self.subcontext_path.deep_view(),
            home: self.home.deep_view(),
            user_profile: self.user_profile.deep_view(),
            os: self.os@,
            arch: self.arch@,
            agent: self.agent@,
        }
    }
}

/// The home directory of an environment.
pub open spec fn home_of(env: EnvView) -> Option<Text> {
    match env.home {
        Some(home) => Some(home),
        None => env.user_profile,
    }
}

impl Env {
    /// The home directory.
    pub fn home_dir(&self) -> (r: Option<String>)
        ensures
            r.deep_view() == home_of(self@),
    {
        match &self.home {
            Some(home) => Some(home.clone()),
            None => match &self.user_profile {
                Some(home) => Some(home.clone()),
                None => None,
            },
        }
    }
}

} // verus!
