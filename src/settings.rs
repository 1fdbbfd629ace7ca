//! Package manager settings, and the extra flags they add to every install
//! and upgrade.
use vstd::prelude::*;

use crate::text::texts;

verus! {

#[derive(Debug, Clone, Copy, PartialEq, Eq, Structural)]
pub enum SettingsTab {
    Winget,
    Changelog,
}

impl Default for SettingsTab {
    fn default() -> (r: SettingsTab)
        ensures
            r == SettingsTab::Winget,
    {
        SettingsTab::Winget
    }
}

#[derive(Debug, Clone, Copy, PartialEq, Eq, Structural)]
pub enum InstallMode {
    Silent,
    Interactive,
}

impl InstallMode {
    pub fn label(self) -> (r: &'static str)
        ensures
            r@ == match self {
                InstallMode::Silent => "Silent"@,
                InstallMode::Interactive => "Interactive"@,
            },
    {
        match self {
            InstallMode::Silent => "Silent",
            InstallMode::Interactive => "Interactive",
        }
    }
}

#[derive(Debug, Clone, Copy, PartialEq, Eq, Structural)]
pub enum InstallScope {
    User,
    Machine,
}

impl InstallScope {
    pub fn label(self) -> (r: &'static str)
        ensures
            r@ == match self {
                InstallScope::User => "User"@,
                InstallScope::Machine => "Machine"@,
            },
    {
        match self {
            InstallScope::User => "User",
            InstallScope::Machine => "Machine",
        }
    }

    /// The value of the `--scope` flag: the label, lowercased.
    pub open spec fn flag_value(self) -> Seq<char> {
        match self {
            InstallScope::User => "user"@,
            InstallScope::Machine => "machine"@,
        }
    }

    fn flag(self) -> (r: &'static str)
        ensures
            r@ == self.flag_value(),
    {
        match self {
            InstallScope::User => "user",
            InstallScope::Machine => "machine",
        }
    }
}

/// A scope choice where `None` reads "Default".
#[derive(Debug, Clone, Copy, PartialEq, Eq, Structural)]
pub struct OptionalScope(pub Option<InstallScope>);

impl OptionalScope {
    pub fn label(self) -> (r: &'static str)
        ensures
            r@ == match self.0 {
                None => "Default"@,
                Some(InstallScope::User) => "User"@,
                Some(InstallScope::Machine) => "Machine"@,
            },
    {
        match self.0 {
            None => "Default",
            Some(s) => s.label(),
        }
    }
}

#[derive(Debug, Clone, Copy, PartialEq, Eq, Structural)]
pub enum Architecture {
    X86,
    X64,
    Arm64,
}

impl Architecture {
    pub open spec fn label_text(self) -> Seq<char> {
        match self {
            Architecture::X86 => "x86"@,
            Architecture::X64 => "x64"@,
            Architecture::Arm64 => "arm64"@,
        }
    }

    pub fn label(self) -> (r: &'static str)
        ensures
            r@ == self.label_text(),
    {
        match self {
            Architecture::X86 => "x86",
            Architecture::X64 => "x64",
            Architecture::Arm64 => "arm64",
        }
    }
}

/// An architecture choice where `None` reads "Default".
#[derive(Debug, Clone, Copy, PartialEq, Eq, Structural)]
pub struct OptionalArchitecture(pub Option<Architecture>);

impl OptionalArchitecture {
    pub fn label(self) -> (r: &'static str)
        ensures
            r@ == match self.0 {
                None => "Default"@,
                Some(a) => a.label_text(),
            },
    {
        match self.0 {
            None => "Default",
            Some(a) => a.label(),
        }
    }
}

#[derive(Debug, Clone)]
pub struct WingetSettings {
    pub install_mode: InstallMode,
    pub scope: Option<InstallScope>,
    pub architecture: Option<Architecture>,
    pub force: bool,
    pub include_unknown: bool,
    pub ignore_security_hash: bool,
    pub disable_interactivity: bool,
    pub install_location: String,
}

impl Default for WingetSettings {
    fn default() -> (r: WingetSettings)
        ensures
            r.install_mode == InstallMode::Silent,
            r.scope is None,
            r.architecture is None,
            !r.force,
            r.include_unknown,
            !r.ignore_security_hash,
            !r.disable_interactivity,
            r.install_location@.len() == 0,
    {
        WingetSettings {
            install_mode: InstallMode::Silent,
            scope: None,
            architecture: None,
            force: false,
            include_unknown: true,
            ignore_security_hash: false,
            disable_interactivity: false,
            install_location: String::new(),
        }
    }
}

pub open spec fn flag_if(on: bool, flag: Seq<char>) -> Seq<Seq<char>> {
    if on {
        seq![flag]
    } else {
        seq![]
    }
}

impl WingetSettings {
    /// The extra flags, in order: the install mode, then the scope, the
    /// architecture, `--force`, `--ignore-security-hash`,
    /// `--disable-interactivity` and the install location, each when set.
    pub open spec fn args(&self) -> Seq<Seq<char>> {
        seq![
            match self.install_mode {
                InstallMode::Silent => "--silent"@,
                InstallMode::Interactive => "--interactive"@,
            },
        ] + match self.scope {
            Some(s) => seq!["--scope"@, s.flag_value()],
            None => seq![],
        } + match self.architecture {
            Some(a) => seq!["--architecture"@, a.label_text()],
            None => seq![],
        } + flag_if(self.force, "--force"@) + flag_if(self.ignore_security_hash, "--ignore-security-hash"@)
            + flag_if(self.disable_interactivity, "--disable-interactivity"@) + if self.install_location@.len()
            > 0 {
            seq!["--location"@, self.install_location@]
        } else {
            seq![]
        }
    }

    /// Builds the extra flags for install and upgrade commands.
    pub fn install_args(&self) -> (r: Vec<String>)
        ensures
            texts(r@) == self.args(),
    {
        let mut args: Vec<String> = Vec::new();
        assert(texts(args@) =~= seq![]);
        match self.install_mode {
            InstallMode::Silent => push_flag(&mut args, true, "--silent"),
            InstallMode::Interactive => push_flag(&mut args, true, "--interactive"),
        }
        let ghost a1 = texts(args@);
        match self.scope {
            Some(scope) => push_pair(&mut args, "--scope", scope.flag()),
            None => {},
        }
        let ghost a2 = texts(args@);
        match self.architecture {
            Some(arch) => push_pair(&mut args, "--architecture", arch.label()),
            None => {},
        }
        let ghost a3 = texts(args@);
        push_flag(&mut args, self.force, "--force");
        push_flag(&mut args, self.ignore_security_hash, "--ignore-security-hash");
        push_flag(&mut args, self.disable_interactivity, "--disable-interactivity");
        let ghost a6 = texts(args@);
        if !self.install_location.as_str().is_empty() {
            push_pair(&mut args, "--location", self.install_location.as_str());
        }
        proof {
            let mode = seq![
                match self.install_mode {
                    InstallMode::Silent => "--silent"@,
                    InstallMode::Interactive => "--interactive"@,
                },
            ];
            assert(a1 =~= mode);
            let sc: Seq<Seq<char>> = match self.scope {
                Some(s) => seq!["--scope"@, s.flag_value()],
                None => seq![],
            };
            assert(a2 =~= a1 + sc);
            let ar: Seq<Seq<char>> = match self.architecture {
                Some(a) => seq!["--architecture"@, a.label_text()],
                None => seq![],
            };
            assert(a3 =~= a2 + ar);
        }
        assert(texts(args@) =~= self.args());
        args
    }
}

fn push_flag(args: &mut Vec<String>, on: bool, flag: &str)
    ensures
        texts(final(args)@) == texts(old(args)@) + flag_if(on, flag@),
{
    if on {
        args.push(flag.to_owned());
    }
    assert(texts(args@) =~= texts(old(args)@) + flag_if(on, flag@));
}

fn push_pair(args: &mut Vec<String>, name: &str, value: &str)
    ensures
        texts(final(args)@) == texts(old(args)@) + seq![name@, value@],
{
    args.push(name.to_owned());
    args.push(value.to_owned());
    assert(texts(args@) =~= texts(old(args)@) + seq![name@, value@]);
}

} // verus!
