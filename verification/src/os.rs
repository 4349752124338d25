//! Target operating systems and their package managers.
use vstd::prelude::*;

use crate::text::{str_eq, to_lowercase, unicode_lowercase};

verus! {

/// Native package manager family of an operating system.
#[derive(Debug, Clone, Copy, PartialEq, Eq, Structural)]
pub enum PackageManagerKind {
    Brew,
    Dnf,
    Apt,
    Pacman,
    Unknown,
}

/// Operating system a workflow plan targets.
#[derive(Debug, Clone, PartialEq, Eq)]
pub enum TargetOs {
    Darwin,
    Fedora,
    Ubuntu,
    Linux,
    Unknown(String),
}

/// Display names (as written by `os_info`) of the systems that are neither
/// macOS nor a Linux distribution.
pub open spec fn non_linux_name(name: Seq<char>) -> bool {
    ||| name == "Windows"@
    ||| name == "FreeBSD"@
    ||| name == "NetBSD"@
    ||| name == "OpenBSD"@
    ||| name == "DragonFly BSD"@
    ||| name == "HardenedBSD"@
    ||| name == "Midnight BSD"@
    ||| name == "illumos"@
    ||| name == "Android"@
    ||| name == "iOS"@
    ||| name == "Emscripten"@
    ||| name == "Redox"@
    ||| name == "Cygwin"@
    ||| name == "Unknown"@
}

/// The operating system named `name` (an `os_info` display name): macOS,
/// Fedora and Ubuntu map to their own variant, the non-Linux systems to
/// `Unknown` with the lowercased name, every other name to `Linux`.
pub open spec fn os_from_name(name: Seq<char>, os: TargetOs) -> bool {
    if name == "Mac OS"@ {
        os == TargetOs::Darwin
    } else if name == "Fedora"@ {
        os == TargetOs::Fedora
    } else if name == "Ubuntu"@ {
        os == TargetOs::Ubuntu
    } else if non_linux_name(name) {
        os is Unknown && os->0@ == unicode_lowercase(name)
    } else {
        os == TargetOs::Linux
    }
}

/// Calls `os_info::get().os_type()` and renders the type with its `Display`
/// impl. The result depends on the machine, so nothing is claimed about it.
#[verifier::external_body]
fn current_os_type_name() -> (name: String) {
    os_info::get().os_type().to_string()
}

impl TargetOs {
    /// Canonical lowercase name of the OS.
    pub open spec fn name(&self) -> Seq<char> {
        match self {
            TargetOs::Darwin => "darwin"@,
            TargetOs::Fedora => "fedora"@,
            TargetOs::Ubuntu => "ubuntu"@,
            TargetOs::Linux => "linux"@,
            TargetOs::Unknown(s) => s@,
        }
    }

    /// Broad platform family used to match variant `platforms` lists.
    pub open spec fn family(&self) -> Seq<char> {
        match self {
            TargetOs::Darwin => "darwin"@,
            TargetOs::Fedora | TargetOs::Ubuntu | TargetOs::Linux => "linux"@,
            TargetOs::Unknown(_) => "unknown"@,
        }
    }

    pub open spec fn linux(&self) -> bool {
        self is Fedora || self is Ubuntu || self is Linux
    }

    pub open spec fn keys(&self) -> Seq<Seq<char>> {
        match self {
            TargetOs::Darwin => seq!["darwin"@],
            TargetOs::Fedora => seq!["linux"@, "fedora"@],
            TargetOs::Ubuntu => seq!["linux"@, "ubuntu"@],
            TargetOs::Linux => seq!["linux"@],
            TargetOs::Unknown(_) => Seq::empty(),
        }
    }

    pub open spec fn pm(&self) -> PackageManagerKind {
        match self {
            TargetOs::Darwin => PackageManagerKind::Brew,
            TargetOs::Fedora => PackageManagerKind::Dnf,
            TargetOs::Ubuntu => PackageManagerKind::Apt,
            _ => PackageManagerKind::Unknown,
        }
    }

    /// Classify an `os_info` display name (see `os_from_name`).
    pub fn from_os_name(name: &str) -> (os: TargetOs)
        ensures
            os_from_name(name@, os),
    {
        if str_eq(name, "Mac OS") {
            TargetOs::Darwin
        } else if str_eq(name, "Fedora") {
            TargetOs::Fedora
        } else if str_eq(name, "Ubuntu") {
            TargetOs::Ubuntu
        } else if str_eq(name, "Windows") || str_eq(name, "FreeBSD") || str_eq(name, "NetBSD")
            || str_eq(name, "OpenBSD") || str_eq(name, "DragonFly BSD") || str_eq(
            name,
            "HardenedBSD",
        ) || str_eq(name, "Midnight BSD") || str_eq(name, "illumos") || str_eq(name, "Android")
            || str_eq(name, "iOS") || str_eq(name, "Emscripten") || str_eq(name, "Redox")
            || str_eq(name, "Cygwin") || str_eq(name, "Unknown") {
            TargetOs::Unknown(to_lowercase(name))
        } else {
            TargetOs::Linux
        }
    }

    /// The operating system this process runs on.
    pub fn detect() -> (os: TargetOs)
        ensures
            exists|name: Seq<char>| os_from_name(name, os),
    {
        let name = current_os_type_name();
        TargetOs::from_os_name(name.as_str())
    }

    /// Keys of the per-OS sections that apply to this OS, most general first.
    pub fn section_keys(&self) -> (keys: Vec<&'static str>)
        ensures
            keys@.map_values(|k: &str| k@) == self.keys(),
    {
        let keys = match self {
            TargetOs::Darwin => vec!["darwin"],
            TargetOs::Fedora => vec!["linux", "fedora"],
            TargetOs::Ubuntu => vec!["linux", "ubuntu"],
            TargetOs::Linux => vec!["linux"],
            TargetOs::Unknown(_) => Vec::new(),
        };
        assert(keys@.map_values(|k: &str| k@) =~= self.keys());
        keys
    }

    pub fn as_str(&self) -> (res: &str)
        ensures
            res@ == self.name(),
    {
        match self {
            TargetOs::Darwin => "darwin",
            TargetOs::Fedora => "fedora",
            TargetOs::Ubuntu => "ubuntu",
            TargetOs::Linux => "linux",
            TargetOs::Unknown(s) => s.as_str(),
        }
    }

    /// Broad platform family for variant `platforms` matching.
    /// Maps all Linux distros to `"linux"` so `platforms = ["linux"]` covers Fedora, Ubuntu, etc.
    pub fn platform_family(&self) -> (res: &str)
        ensures
            res@ == self.family(),
    {
        match self {
            TargetOs::Darwin => "darwin",
            TargetOs::Fedora | TargetOs::Ubuntu | TargetOs::Linux => "linux",
            TargetOs::Unknown(_) => "unknown",
        }
    }

    pub fn is_linux(&self) -> (b: bool)
        ensures
            b == self.linux(),
    {
        matches!(self, TargetOs::Fedora | TargetOs::Ubuntu | TargetOs::Linux)
    }

    /// Returns the package manager for well-known OS variants.
    /// For generic `TargetOs::Linux`, returns `Unknown`: detection requires
    /// looking at the installed tools.
    pub fn package_manager_kind(&self) -> (pm: PackageManagerKind)
        ensures
            pm == self.pm(),
    {
        match self {
            TargetOs::Darwin => PackageManagerKind::Brew,
            TargetOs::Fedora => PackageManagerKind::Dnf,
            TargetOs::Ubuntu => PackageManagerKind::Apt,
            TargetOs::Linux | TargetOs::Unknown(_) => PackageManagerKind::Unknown,
        }
    }

    /// An owned copy with the same view.
    pub fn duplicate(&self) -> (r: TargetOs)
        ensures
            r.name() == self.name(),
            r.family() == self.family(),
            r.pm() == self.pm(),
            r.keys() == self.keys(),
            r.linux() == self.linux(),
            self is Unknown ==> r is Unknown,
            !(self is Unknown) ==> r == *self,
    {
        match self {
            TargetOs::Darwin => TargetOs::Darwin,
            TargetOs::Fedora => TargetOs::Fedora,
            TargetOs::Ubuntu => TargetOs::Ubuntu,
            TargetOs::Linux => TargetOs::Linux,
            TargetOs::Unknown(s) => TargetOs::Unknown(s.clone()),
        }
    }
}

/// Every Linux distribution shares the `linux` platform family, and is the
/// only kind of OS that does.
pub proof fn linux_family_law(os: TargetOs)
    ensures
        os.linux() <==> os.family() == "linux"@,
{
    reveal_strlit("linux");
    reveal_strlit("darwin");
    reveal_strlit("unknown");
    assert("darwin"@[0] != "linux"@[0]);
    assert("unknown"@[0] != "linux"@[0]);
}

} // verus!
