//! The permission-profile compiler: turns a raw skill manifest into a
//! compiled capability profile with absolute, normalized roots.

use crate::paths::AbsPath;
use crate::paths::PathV;
use crate::paths::split_slash;
use crate::platform::MacOsSeatbeltProfileExtensions;
use crate::platform::SeatbeltExtensionsV;
use crate::platform::SkillManifestMacOsPermissions;
use crate::platform::build_macos_seatbelt_profile_extensions;
use crate::platform::spec_build_extensions;
use crate::policy::ApprovalPolicy;
use crate::policy::ReadAccessV;
use crate::policy::ReadOnlyAccess;
use crate::policy::SandboxPolicy;
use crate::policy::SandboxPolicyV;
use crate::strings::spec_trim;
use crate::strings::trim;
use vstd::prelude::*;

verus! {

/// The raw filesystem block of a skill manifest: path strings that may be
/// relative to the skill directory, absolute, or `~`-prefixed.
#[derive(Debug)]
pub struct SkillManifestFileSystemPermissions {
    pub read: Vec<String>,
    pub write: Vec<String>,
}

impl Default for SkillManifestFileSystemPermissions {
    /// An empty filesystem block.
    fn default() -> (r: Self)
        ensures
            r.read@.len() == 0,
            r.write@.len() == 0,
    {
        SkillManifestFileSystemPermissions { read: Vec::new(), write: Vec::new() }
    }
}

/// A raw skill manifest, as the external loader hands it over.
#[derive(Debug)]
pub struct SkillManifestPermissions {
    pub network: bool,
    pub file_system: SkillManifestFileSystemPermissions,
    pub macos: SkillManifestMacOsPermissions,
}

impl Default for SkillManifestPermissions {
    /// An empty manifest: no network, no paths, nothing platform-specific.
    fn default() -> (r: Self)
        ensures
            !r.network,
            r.file_system.read@.len() == 0,
            r.file_system.write@.len() == 0,
            r.macos@.preferences is None,
            r.macos@.automations is None,
    {
        SkillManifestPermissions {
            network: false,
            file_system: SkillManifestFileSystemPermissions::default(),
            macos: SkillManifestMacOsPermissions::default(),
        }
    }
}

/// A compiled, immutable capability profile: what a matched skill grants
/// the commands it governs.
#[derive(Debug)]
pub struct CapabilityProfile {
    pub approval_policy: ApprovalPolicy,
    pub sandbox_policy: SandboxPolicy,
    pub macos_seatbelt_profile_extensions: Option<MacOsSeatbeltProfileExtensions>,
}

/// The mathematical value of a [`CapabilityProfile`].
pub struct CapabilityProfileV {
    pub approval_policy: ApprovalPolicy,
    pub sandbox_policy: SandboxPolicyV,
    pub macos_seatbelt_profile_extensions: Option<SeatbeltExtensionsV>,
}

impl View for CapabilityProfile {
    type V = CapabilityProfileV;

    open spec fn view(&self) -> CapabilityProfileV {
        CapabilityProfileV {
            approval_policy: self.approval_policy,
            sandbox_policy: self.sandbox_policy@,
            macos_seatbelt_profile_extensions: match &self.macos_seatbelt_profile_extensions {
                Some(e) => Some(e@),
                None => None,
            },
        }
    }
}

impl Clone for CapabilityProfile {
    /// Clones the profile, keeping its value.
    fn clone(&self) -> (r: Self)
        ensures
            r@ == self@,
    {
        CapabilityProfile {
            approval_policy: self.approval_policy,
            sandbox_policy: self.sandbox_policy.clone(),
            macos_seatbelt_profile_extensions: match &self.macos_seatbelt_profile_extensions {
                Some(e) => Some(e.clone()),
                None => None,
            },
        }
    }
}

/// Relies on `dirs::home_dir`: the user's home directory, if the platform
/// reports one.  The result depends on the environment, so nothing is
/// assumed of it.
#[verifier::external_body]
fn home_dir_string() -> (r: Option<String>) {
    dirs::home_dir().map(|p| p.to_string_lossy().into_owned())
}

/// Relies on `dunce::canonicalize`: resolves symlinks through the real
/// filesystem, failing when the path does not exist.  The result depends
/// on the machine's disk, so nothing is assumed of it.
#[verifier::external_body]
pub(crate) fn canonicalize_os(path: &String) -> (r: Option<String>) {
    match dunce::canonicalize(std::path::Path::new(path.as_str())) {
        Ok(p) => Some(p.to_string_lossy().into_owned()),
        Err(_) => None,
    }
}

/// What home expansion yields for a given home directory: `~` alone
/// becomes the home directory, a leading `~/` is replaced by it, anything
/// else (including a missing home) is unchanged.
pub open spec fn spec_expand_home(p: Seq<char>, home: Option<Seq<char>>) -> Seq<char> {
    if p.len() == 1 && p[0] == '~' {
        match home {
            Some(h) => h,
            None => p,
        }
    } else if p.len() >= 2 && p[0] == '~' && p[1] == '/' {
        match home {
            Some(h) => h + p.skip(1),
            None => p,
        }
    } else {
        p
    }
}

/// Expands a leading `~` against a known home directory; see
/// [`spec_expand_home`].
pub fn expand_home_with(path: &str, home: Option<&String>) -> (r: String)
    ensures
        r@ == spec_expand_home(
            path@,
            match home {
                Some(h) => Some(h@),
                None => None,
            },
        ),
{
    let n = path.unicode_len();
    if n == 1 && path.get_char(0) == '~' {
        match home {
            Some(h) => h.clone(),
            None => path.to_owned(),
        }
    } else if n >= 2 && path.get_char(0) == '~' && path.get_char(1) == '/' {
        match home {
            Some(h) => {
                let rest = path.substring_char(1, n);
                h.clone().concat(rest)
            },
            None => path.to_owned(),
        }
    } else {
        path.to_owned()
    }
}

/// Expands a leading `~` against the platform's home directory.  A token
/// that does not start with `~` is returned unchanged; what a `~` expands
/// to depends on the environment.
pub fn expand_home(path: &str) -> (r: String)
    ensures
        path@.len() == 0 || path@[0] != '~' ==> r@ == path@,
        exists|home: Option<Seq<char>>| r@ == spec_expand_home(path@, home),
{
    let home = home_dir_string();
    let r = expand_home_with(path, home.as_ref());
    proof {
        let ghost h: Option<Seq<char>> = match home {
            Some(s) => Some(s@),
            None => None,
        };
        assert(r@ == spec_expand_home(path@, h));
    }
    r
}

/// Canonicalizes an absolute path against the real filesystem, falling
/// back to the lexically normalized input when the filesystem cannot
/// resolve it.  Which of the two comes back depends on the disk, so the
/// result is only known to be some well-formed absolute path.
pub fn normalize_runtime_absolute_path(path: &AbsPath) -> (r: AbsPath)
    ensures
        crate::paths::path_wf(path@) ==> crate::paths::path_wf(r@),
{
    let rendered = path.to_string();
    match canonicalize_os(&rendered) {
        Some(canonical) => {
            match AbsPath::from_string(canonical.as_str()) {
                Some(p) => p,
                None => path.clone(),
            }
        },
        None => path.clone(),
    }
}

/// Resolves one raw manifest path entry: trim, expand the home prefix,
/// resolve relative entries under the skill directory, normalize
/// lexically and canonically.  Only an entry that trims to nothing is
/// dropped; everything else resolves to some absolute path.
pub fn normalize_permission_path(skill_dir: &AbsPath, value: &str) -> (r: Option<AbsPath>)
    ensures
        r is Some <==> spec_trim(value@).len() > 0,
{
    let trimmed = trim(value);
    if trimmed.as_str().unicode_len() == 0 {
        return None;
    }
    let expanded = expand_home(trimmed.as_str());
    let base = if expanded.as_str().unicode_len() > 0 && expanded.as_str().get_char(0) == '/' {
        match AbsPath::from_string(expanded.as_str()) {
            Some(p) => p,
            None => AbsPath::root(),
        }
    } else {
        let rel = split_slash(expanded.as_str());
        skill_dir.join_under(&rel)
    };
    Some(normalize_runtime_absolute_path(&base))
}

/// Resolves a list of raw manifest path entries, dropping entries that
/// trim to nothing and duplicates of an already-resolved root; the first
/// occurrence order is kept.
pub fn normalize_permission_paths(skill_dir: &AbsPath, values: &Vec<String>) -> (roots: Vec<
    AbsPath,
>)
    ensures
        forall|i: int, j: int|
            0 <= i < j < roots.deep_view().len() ==> roots.deep_view()[i] != roots.deep_view()[j],
        (exists|i: int|
            0 <= i < values.deep_view().len() && spec_trim(#[trigger] values.deep_view()[i]).len()
                > 0) <==> roots.deep_view().len() > 0,
{
    let mut roots: Vec<AbsPath> = Vec::new();
    let mut i: usize = 0;
    while i < values.len()
        invariant
            i <= values.len(),
            values.deep_view().len() == values@.len(),
            forall|a: int, b: int|
                0 <= a < b < roots.deep_view().len() ==> roots.deep_view()[a]
                    != roots.deep_view()[b],
            (exists|a: int|
                0 <= a < i && spec_trim(#[trigger] values.deep_view()[a]).len() > 0) <==> roots
                .deep_view().len() > 0,
        decreases values.len() - i,
    {
        proof {
            assert(values.deep_view()[i as int] == values@[i as int]@);
        }
        match normalize_permission_path(skill_dir, values[i].as_str()) {
            Some(path) => {
                if !crate::paths::paths_contain(&roots, &path) {
                    let ghost dv = roots.deep_view();
                    roots.push(path);
                    proof {
                        assert(roots.deep_view() =~= dv.push(path@));
                        assert(forall|a: int|
                            0 <= a < dv.len() ==> roots.deep_view()[a] == dv[a]);
                    }
                }
            },
            None => {
            },
        }
        i += 1;
    }
    roots
}

/// The sandbox policy derived from resolved roots: writable roots make a
/// workspace-write policy whose read side restricts to the readable roots
/// when any exist; readable roots alone make a restricted read-only
/// policy; nothing at all makes the default minimal read-only policy.
pub open spec fn spec_derive_sandbox_policy(
    writable: Seq<PathV>,
    readable: Seq<PathV>,
    network: bool,
) -> SandboxPolicyV {
    if writable.len() > 0 {
        SandboxPolicyV::Workspace {
            writable_roots: writable,
            read_only_access: if readable.len() == 0 {
                ReadAccessV::Full
            } else {
                ReadAccessV::Restricted {
                    include_platform_defaults: true,
                    readable_roots: readable,
                }
            },
            network_access: network,
            exclude_tmpdir_env_var: false,
            exclude_slash_tmp: false,
        }
    } else if readable.len() > 0 {
        SandboxPolicyV::ReadOnly {
            access: ReadAccessV::Restricted {
                include_platform_defaults: true,
                readable_roots: readable,
            },
        }
    } else {
        SandboxPolicyV::ReadOnly {
            access: ReadAccessV::Restricted {
                include_platform_defaults: true,
                readable_roots: Seq::<PathV>::empty(),
            },
        }
    }
}

/// Builds the sandbox policy for resolved roots; see
/// [`spec_derive_sandbox_policy`].
pub fn derive_sandbox_policy(
    writable: Vec<AbsPath>,
    readable: Vec<AbsPath>,
    network: bool,
) -> (policy: SandboxPolicy)
    ensures
        policy@ == spec_derive_sandbox_policy(writable.deep_view(), readable.deep_view(), network),
{
    if writable.len() > 0 {
        SandboxPolicy::WorkspaceWrite {
            writable_roots: writable,
            read_only_access: if readable.len() == 0 {
                proof {
                    assert(readable.deep_view() =~= Seq::<PathV>::empty());
                }
                ReadOnlyAccess::FullAccess
            } else {
                ReadOnlyAccess::Restricted {
                    include_platform_defaults: true,
                    readable_roots: readable,
                }
            },
            network_access: network,
            exclude_tmpdir_env_var: false,
            exclude_slash_tmp: false,
        }
    } else if readable.len() > 0 {
        SandboxPolicy::ReadOnly {
            access: ReadOnlyAccess::Restricted {
                include_platform_defaults: true,
                readable_roots: readable,
            },
        }
    } else {
        SandboxPolicy::new_read_only_policy()
    }
}

/// Compiles a raw manifest into a capability profile.
///
/// A missing manifest compiles to no profile at all.  A present one
/// always compiles: its path entries resolve under the skill directory,
/// entries that trim to nothing are dropped, duplicates collapse to their
/// first occurrence, and the sandbox policy shape follows which of the
/// lists kept any roots.  A compiled profile never asks for approval: its
/// own sandbox already confines the skill.
pub fn compile_permission_profile(
    skill_dir: &AbsPath,
    permissions: Option<&SkillManifestPermissions>,
) -> (r: Option<CapabilityProfile>)
    ensures
        r is Some <==> permissions is Some,
        r is Some ==> {
            let profile = r->Some_0@;
            let manifest = permissions->Some_0;
            &&& profile.approval_policy == ApprovalPolicy::Never
            &&& exists|writable: Seq<PathV>, readable: Seq<PathV>|
                {
                    &&& profile.sandbox_policy == spec_derive_sandbox_policy(
                        writable,
                        readable,
                        manifest.network,
                    )
                    &&& crate::paths::roots_distinct(writable)
                    &&& crate::paths::roots_distinct(readable)
                    &&& ((exists|i: int|
                        0 <= i < manifest.file_system.write.deep_view().len() && spec_trim(
                            #[trigger] manifest.file_system.write.deep_view()[i],
                        ).len() > 0) <==> writable.len() > 0)
                    &&& ((exists|i: int|
                        0 <= i < manifest.file_system.read.deep_view().len() && spec_trim(
                            #[trigger] manifest.file_system.read.deep_view()[i],
                        ).len() > 0) <==> readable.len() > 0)
                }
            &&& profile.macos_seatbelt_profile_extensions == Some(
                spec_build_extensions(manifest.macos@),
            )
        },
{
    let manifest = match permissions {
        Some(m) => m,
        None => {
            return None;
        },
    };
    let fs_read = normalize_permission_paths(skill_dir, &manifest.file_system.read);
    let fs_write = normalize_permission_paths(skill_dir, &manifest.file_system.write);
    let ghost writable = fs_write.deep_view();
    let ghost readable = fs_read.deep_view();
    let sandbox_policy = derive_sandbox_policy(fs_write, fs_read, manifest.network);
    let macos_seatbelt_profile_extensions = build_macos_seatbelt_profile_extensions(
        &manifest.macos,
    );
    Some(
        CapabilityProfile {
            approval_policy: ApprovalPolicy::Never,
            sandbox_policy,
            macos_seatbelt_profile_extensions,
        },
    )
}

/// A manifest whose writable roots survive and whose readable list kept
/// nothing compiles to a workspace-write policy with full read access.
pub proof fn lemma_write_only_profile_shape(writable: Seq<PathV>, network: bool)
    requires
        writable.len() > 0,
    ensures
        spec_derive_sandbox_policy(writable, Seq::<PathV>::empty(), network)
            == (SandboxPolicyV::Workspace {
            writable_roots: writable,
            read_only_access: ReadAccessV::Full,
            network_access: network,
            exclude_tmpdir_env_var: false,
            exclude_slash_tmp: false,
        }),
{
}

/// A manifest whose readable roots survive and whose writable list kept
/// nothing compiles to a restricted read-only policy over exactly those
/// roots.
pub proof fn lemma_read_only_profile_shape(readable: Seq<PathV>, network: bool)
    requires
        readable.len() > 0,
    ensures
        spec_derive_sandbox_policy(Seq::<PathV>::empty(), readable, network)
            == (SandboxPolicyV::ReadOnly {
            access: ReadAccessV::Restricted {
                include_platform_defaults: true,
                readable_roots: readable,
            },
        }),
{
}

} // verus!
