//! Machine profiles: each preselects a set of catalog packages.
use vstd::prelude::*;

verus! {

#[derive(Debug, Clone, Copy, PartialEq, Eq, Structural)]
pub enum Profile {
    Personal,
    Work,
    Homelab,
    Manual,
}

impl Profile {
    pub open spec fn title_text(self) -> Seq<char> {
        match self {
            Profile::Personal => "Personal"@,
            Profile::Work => "Work"@,
            Profile::Homelab => "Homelab"@,
            Profile::Manual => "Manual"@,
        }
    }

    pub open spec fn slug_text(self) -> Seq<char> {
        match self {
            Profile::Personal => "personal"@,
            Profile::Work => "work"@,
            Profile::Homelab => "homelab"@,
            Profile::Manual => "manual"@,
        }
    }

    pub fn title(self) -> (r: &'static str)
        ensures
            r@ == self.title_text(),
    {
        match self {
            Profile::Personal => "Personal",
            Profile::Work => "Work",
            Profile::Homelab => "Homelab",
            Profile::Manual => "Manual",
        }
    }

    pub fn description(self) -> (r: &'static str)
        ensures
            r@ == match self {
                Profile::Personal => "Browsers, media, gaming, and everyday tools"@,
                Profile::Work => "Dev tools, communication, and productivity apps"@,
                Profile::Homelab => "Server utilities, containers, and networking tools"@,
                Profile::Manual => "Start from scratch \u{2014} pick exactly what you want"@,
            },
    {
        match self {
            Profile::Personal => "Browsers, media, gaming, and everyday tools",
            Profile::Work => "Dev tools, communication, and productivity apps",
            Profile::Homelab => "Server utilities, containers, and networking tools",
            Profile::Manual => "Start from scratch \u{2014} pick exactly what you want",
        }
    }

    /// The name by which catalog packages refer to this profile.
    pub fn slug(self) -> (r: &'static str)
        ensures
            r@ == self.slug_text(),
    {
        match self {
            Profile::Personal => "personal",
            Profile::Work => "work",
            Profile::Homelab => "homelab",
            Profile::Manual => "manual",
        }
    }
}

} // verus!
