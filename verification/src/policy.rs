//! Capability policies: approval order, sandbox policies, and their merge.
//!
//! The merge is a meet over the capability lattice: along no axis does the
//! merged policy grant more than either input.

use crate::paths::AbsPath;
use crate::paths::PathV;
use crate::paths::intersect_absolute_roots;
use crate::paths::is_path_prefix;
use crate::paths::lemma_intersect_roots_comm;
use crate::paths::lemma_intersect_roots_meet;
use crate::paths::lemma_intersect_roots_self;
use crate::paths::lemma_path_prefix_trans;
use crate::paths::roots_antichain;
use crate::paths::roots_distinct;
use crate::paths::spec_intersect_roots;
use vstd::prelude::*;

verus! {

/// When a human must confirm a command before it runs.
///
/// The variants form a fixed total order used only for selection
/// (see `stricter_approval_policy`), not a literal "more strict" semantic.
#[derive(Clone, Copy, Debug, PartialEq, Eq, Structural)]
pub enum ApprovalPolicy {
    OnFailure,
    OnRequest,
    UnlessTrusted,
    Never,
}

/// Rank of a policy in the fixed selection order:
/// `OnFailure < OnRequest < UnlessTrusted < Never`.
pub open spec fn spec_approval_policy_rank(policy: ApprovalPolicy) -> int {
    match policy {
        ApprovalPolicy::OnFailure => 0,
        ApprovalPolicy::OnRequest => 1,
        ApprovalPolicy::UnlessTrusted => 2,
        ApprovalPolicy::Never => 3,
    }
}

pub fn approval_policy_rank(policy: ApprovalPolicy) -> (rank: u8)
    ensures
        rank as int == spec_approval_policy_rank(policy),
{
    match policy {
        ApprovalPolicy::OnFailure => 0,
        ApprovalPolicy::OnRequest => 1,
        ApprovalPolicy::UnlessTrusted => 2,
        ApprovalPolicy::Never => 3,
    }
}

/// The policy selected when a matched skill's profile meets the turn's
/// default: the one of higher rank wins, the left side on a tie.
pub open spec fn spec_stricter_approval_policy(
    lhs: ApprovalPolicy,
    rhs: ApprovalPolicy,
) -> ApprovalPolicy {
    if spec_approval_policy_rank(lhs) >= spec_approval_policy_rank(rhs) {
        lhs
    } else {
        rhs
    }
}

pub fn stricter_approval_policy(lhs: ApprovalPolicy, rhs: ApprovalPolicy) -> (chosen: ApprovalPolicy)
    ensures
        chosen == spec_stricter_approval_policy(lhs, rhs),
{
    if approval_policy_rank(lhs) >= approval_policy_rank(rhs) {
        lhs
    } else {
        rhs
    }
}

/// Whether an externally enforced sandbox grants the network.
#[derive(Clone, Copy, Debug, PartialEq, Eq, Structural)]
pub enum NetworkAccess {
    Enabled,
    Restricted,
}

/// Read capability granted by a sandbox policy.
#[derive(Debug)]
pub enum ReadOnlyAccess {
    FullAccess,
    Restricted { include_platform_defaults: bool, readable_roots: Vec<AbsPath> },
}

/// The mathematical value of a [`ReadOnlyAccess`].
pub enum ReadAccessV {
    Full,
    Restricted { include_platform_defaults: bool, readable_roots: Seq<PathV> },
}

impl View for ReadOnlyAccess {
    type V = ReadAccessV;

    open spec fn view(&self) -> ReadAccessV {
        match self {
            ReadOnlyAccess::FullAccess => ReadAccessV::Full,
            ReadOnlyAccess::Restricted { include_platform_defaults, readable_roots } =>
                ReadAccessV::Restricted {
                    include_platform_defaults: *include_platform_defaults,
                    readable_roots: readable_roots.deep_view(),
                },
        }
    }
}

/// The filesystem and network capabilities granted to a command.
#[derive(Debug)]
pub enum SandboxPolicy {
    /// Unrestricted access; nothing is enforced.
    FullAccess,
    /// Enforcement is delegated to an external sandbox.
    ExternalSandbox { network_access: NetworkAccess },
    /// Writes confined to the given roots, reads per `read_only_access`.
    WorkspaceWrite {
        writable_roots: Vec<AbsPath>,
        read_only_access: ReadOnlyAccess,
        network_access: bool,
        exclude_tmpdir_env_var: bool,
        exclude_slash_tmp: bool,
    },
    /// No writes at all; reads per `access`.
    ReadOnly { access: ReadOnlyAccess },
}

/// The mathematical value of a [`SandboxPolicy`].
pub enum SandboxPolicyV {
    Full,
    External { network_access: NetworkAccess },
    Workspace {
        writable_roots: Seq<PathV>,
        read_only_access: ReadAccessV,
        network_access: bool,
        exclude_tmpdir_env_var: bool,
        exclude_slash_tmp: bool,
    },
    ReadOnly { access: ReadAccessV },
}

impl View for SandboxPolicy {
    type V = SandboxPolicyV;

    open spec fn view(&self) -> SandboxPolicyV {
        match self {
            SandboxPolicy::FullAccess => SandboxPolicyV::Full,
            SandboxPolicy::ExternalSandbox { network_access } => SandboxPolicyV::External {
                network_access: *network_access,
            },
            SandboxPolicy::WorkspaceWrite {
                writable_roots,
                read_only_access,
                network_access,
                exclude_tmpdir_env_var,
                exclude_slash_tmp,
            } => SandboxPolicyV::Workspace {
                writable_roots: writable_roots.deep_view(),
                read_only_access: read_only_access@,
                network_access: *network_access,
                exclude_tmpdir_env_var: *exclude_tmpdir_env_var,
                exclude_slash_tmp: *exclude_slash_tmp,
            },
            SandboxPolicy::ReadOnly { access } => SandboxPolicyV::ReadOnly { access: access@ },
        }
    }
}

/// Whether a policy grants full network access.
pub open spec fn spec_network_of(p: SandboxPolicyV) -> bool {
    match p {
        SandboxPolicyV::Full => true,
        SandboxPolicyV::External { network_access } => network_access == NetworkAccess::Enabled,
        SandboxPolicyV::Workspace { network_access, .. } => network_access,
        SandboxPolicyV::ReadOnly { .. } => false,
    }
}

/// Write-capability rank: a higher rank is more restrictive.
pub open spec fn spec_write_rank(p: SandboxPolicyV) -> int {
    match p {
        SandboxPolicyV::Full => 0,
        SandboxPolicyV::External { .. } => 0,
        SandboxPolicyV::Workspace { .. } => 1,
        SandboxPolicyV::ReadOnly { .. } => 2,
    }
}

/// The read capability a policy grants.
pub open spec fn spec_read_access_of(p: SandboxPolicyV) -> ReadAccessV {
    match p {
        SandboxPolicyV::Full => ReadAccessV::Full,
        SandboxPolicyV::External { .. } => ReadAccessV::Full,
        SandboxPolicyV::Workspace { read_only_access, .. } => read_only_access,
        SandboxPolicyV::ReadOnly { access } => access,
    }
}

/// The merged read capability: full access is absorbed by any concrete
/// restriction; two restrictions intersect their roots and AND their
/// platform defaults.
pub open spec fn spec_merge_read_access(lhs: ReadAccessV, rhs: ReadAccessV) -> ReadAccessV {
    match (lhs, rhs) {
        (ReadAccessV::Full, other) => other,
        (other, ReadAccessV::Full) => other,
        (
            ReadAccessV::Restricted { include_platform_defaults: ld, readable_roots: lr },
            ReadAccessV::Restricted { include_platform_defaults: rd, readable_roots: rr },
        ) => ReadAccessV::Restricted {
            include_platform_defaults: ld && rd,
            readable_roots: spec_intersect_roots(lr, rr),
        },
    }
}

/// The writable roots a policy confines writes to, if it is a
/// workspace-write policy.
pub open spec fn spec_writable_of(p: SandboxPolicyV) -> Option<Seq<PathV>> {
    match p {
        SandboxPolicyV::Workspace { writable_roots, .. } => Some(writable_roots),
        _ => None,
    }
}

pub open spec fn spec_excl_tmpdir_of(p: SandboxPolicyV) -> bool {
    match p {
        SandboxPolicyV::Workspace { exclude_tmpdir_env_var, .. } => exclude_tmpdir_env_var,
        _ => false,
    }
}

pub open spec fn spec_excl_slash_tmp_of(p: SandboxPolicyV) -> bool {
    match p {
        SandboxPolicyV::Workspace { exclude_slash_tmp, .. } => exclude_slash_tmp,
        _ => false,
    }
}

/// The merged writable roots: an intersection when both sides confine
/// writes, a pass-through when only one does.
pub open spec fn spec_merge_writable(
    lhs: Option<Seq<PathV>>,
    rhs: Option<Seq<PathV>>,
) -> Seq<PathV> {
    match (lhs, rhs) {
        (Some(l), Some(r)) => spec_intersect_roots(l, r),
        (Some(l), None) => l,
        (None, Some(r)) => r,
        (None, None) => Seq::<PathV>::empty(),
    }
}

/// The meet of two sandbox policies: network is granted only when both
/// sides grant it; the write shape follows the more restrictive side;
/// read restrictions and writable roots intersect; the exclusion flags
/// accumulate; an external sandbox marker is sticky.
pub open spec fn spec_merge_policies(lhs: SandboxPolicyV, rhs: SandboxPolicyV) -> SandboxPolicyV {
    let network = spec_network_of(lhs) && spec_network_of(rhs);
    let rank = if spec_write_rank(lhs) >= spec_write_rank(rhs) {
        spec_write_rank(lhs)
    } else {
        spec_write_rank(rhs)
    };
    let read = spec_merge_read_access(spec_read_access_of(lhs), spec_read_access_of(rhs));
    if rank == 2 {
        SandboxPolicyV::ReadOnly { access: read }
    } else if rank == 1 {
        SandboxPolicyV::Workspace {
            writable_roots: spec_merge_writable(spec_writable_of(lhs), spec_writable_of(rhs)),
            read_only_access: read,
            network_access: network,
            exclude_tmpdir_env_var: spec_excl_tmpdir_of(lhs) || spec_excl_tmpdir_of(rhs),
            exclude_slash_tmp: spec_excl_slash_tmp_of(lhs) || spec_excl_slash_tmp_of(rhs),
        }
    } else {
        if network {
            if lhs is External || rhs is External {
                SandboxPolicyV::External { network_access: NetworkAccess::Enabled }
            } else {
                SandboxPolicyV::Full
            }
        } else {
            SandboxPolicyV::External { network_access: NetworkAccess::Restricted }
        }
    }
}

/// Clones a list of paths, keeping its contents.
pub fn clone_paths(v: &Vec<AbsPath>) -> (r: Vec<AbsPath>)
    ensures
        r.deep_view() == v.deep_view(),
{
    let mut r: Vec<AbsPath> = Vec::new();
    let mut i: usize = 0;
    proof {
        assert(r.deep_view() =~= v.deep_view().subrange(0, 0));
    }
    while i < v.len()
        invariant
            i <= v.len(),
            v.deep_view().len() == v@.len(),
            r.deep_view() == v.deep_view().subrange(0, i as int),
        decreases v.len() - i,
    {
        let ghost dv = r.deep_view();
        r.push(v[i].clone());
        proof {
            assert(r.deep_view() =~= dv.push(v.deep_view()[i as int]));
            assert(dv.push(v.deep_view()[i as int]) =~= v.deep_view().subrange(0, i as int + 1));
        }
        i += 1;
    }
    proof {
        assert(v.deep_view().subrange(0, v.deep_view().len() as int) =~= v.deep_view());
    }
    r
}

impl Clone for ReadOnlyAccess {
    /// Clones the read capability, keeping its value.
    fn clone(&self) -> (r: Self)
        ensures
            r@ == self@,
    {
        match self {
            ReadOnlyAccess::FullAccess => ReadOnlyAccess::FullAccess,
            ReadOnlyAccess::Restricted { include_platform_defaults, readable_roots } =>
                ReadOnlyAccess::Restricted {
                    include_platform_defaults: *include_platform_defaults,
                    readable_roots: clone_paths(readable_roots),
                },
        }
    }
}

impl Clone for SandboxPolicy {
    /// Clones the policy, keeping its value.
    fn clone(&self) -> (r: Self)
        ensures
            r@ == self@,
    {
        match self {
            SandboxPolicy::FullAccess => SandboxPolicy::FullAccess,
            SandboxPolicy::ExternalSandbox { network_access } => SandboxPolicy::ExternalSandbox {
                network_access: *network_access,
            },
            SandboxPolicy::WorkspaceWrite {
                writable_roots,
                read_only_access,
                network_access,
                exclude_tmpdir_env_var,
                exclude_slash_tmp,
            } => SandboxPolicy::WorkspaceWrite {
                writable_roots: clone_paths(writable_roots),
                read_only_access: read_only_access.clone(),
                network_access: *network_access,
                exclude_tmpdir_env_var: *exclude_tmpdir_env_var,
                exclude_slash_tmp: *exclude_slash_tmp,
            },
            SandboxPolicy::ReadOnly { access } => SandboxPolicy::ReadOnly {
                access: access.clone(),
            },
        }
    }
}

impl SandboxPolicy {
    /// The default minimal read-only policy: no extra readable roots, only
    /// the platform defaults.
    pub fn new_read_only_policy() -> (r: SandboxPolicy)
        ensures
            r@ == (SandboxPolicyV::ReadOnly {
                access: ReadAccessV::Restricted {
                    include_platform_defaults: true,
                    readable_roots: Seq::<PathV>::empty(),
                },
            }),
    {
        let roots: Vec<AbsPath> = Vec::new();
        proof {
            assert(roots.deep_view() =~= Seq::<PathV>::empty());
        }
        SandboxPolicy::ReadOnly {
            access: ReadOnlyAccess::Restricted {
                include_platform_defaults: true,
                readable_roots: roots,
            },
        }
    }

    /// Whether this policy grants full network access.
    pub fn has_full_network_access(&self) -> (r: bool)
        ensures
            r == spec_network_of(self@),
    {
        match self {
            SandboxPolicy::FullAccess => true,
            SandboxPolicy::ExternalSandbox { network_access } => matches!(
                network_access,
                NetworkAccess::Enabled
            ),
            SandboxPolicy::WorkspaceWrite { network_access, .. } => *network_access,
            SandboxPolicy::ReadOnly { .. } => false,
        }
    }
}

/// Write-capability classes, ordered from most to least permissive.
#[derive(Clone, Copy, Debug, PartialEq, Eq, Structural)]
pub enum WriteAccessKind {
    FullAccess,
    WorkspaceWrite,
    ReadOnly,
}

/// The rank of a write-capability class; higher is more restrictive.
pub open spec fn spec_write_kind_rank(kind: WriteAccessKind) -> int {
    match kind {
        WriteAccessKind::FullAccess => 0,
        WriteAccessKind::WorkspaceWrite => 1,
        WriteAccessKind::ReadOnly => 2,
    }
}

/// Classifies a policy by the writes it still allows.
pub fn write_access_kind(policy: &SandboxPolicy) -> (kind: WriteAccessKind)
    ensures
        spec_write_kind_rank(kind) == spec_write_rank(policy@),
{
    match policy {
        SandboxPolicy::FullAccess => WriteAccessKind::FullAccess,
        SandboxPolicy::ExternalSandbox { .. } => WriteAccessKind::FullAccess,
        SandboxPolicy::WorkspaceWrite { .. } => WriteAccessKind::WorkspaceWrite,
        SandboxPolicy::ReadOnly { .. } => WriteAccessKind::ReadOnly,
    }
}

/// The read capability of a policy; unrestricted-class policies read
/// everything.
pub fn read_access_for_policy(policy: &SandboxPolicy) -> (access: ReadOnlyAccess)
    ensures
        access@ == spec_read_access_of(policy@),
{
    match policy {
        SandboxPolicy::FullAccess => ReadOnlyAccess::FullAccess,
        SandboxPolicy::ExternalSandbox { .. } => ReadOnlyAccess::FullAccess,
        SandboxPolicy::ReadOnly { access } => access.clone(),
        SandboxPolicy::WorkspaceWrite { read_only_access, .. } => read_only_access.clone(),
    }
}

/// Merges two read capabilities; see [`spec_merge_read_access`].
pub fn merge_read_only_access(lhs: ReadOnlyAccess, rhs: ReadOnlyAccess) -> (merged: ReadOnlyAccess)
    ensures
        merged@ == spec_merge_read_access(lhs@, rhs@),
{
    match (lhs, rhs) {
        (ReadOnlyAccess::FullAccess, access) => access,
        (access, ReadOnlyAccess::FullAccess) => access,
        (
            ReadOnlyAccess::Restricted {
                include_platform_defaults: lhs_defaults,
                readable_roots: lhs_roots,
            },
            ReadOnlyAccess::Restricted {
                include_platform_defaults: rhs_defaults,
                readable_roots: rhs_roots,
            },
        ) => ReadOnlyAccess::Restricted {
            include_platform_defaults: lhs_defaults && rhs_defaults,
            readable_roots: intersect_absolute_roots(&lhs_roots, &rhs_roots),
        },
    }
}

/// The writable roots and exclusion flags of a workspace-write policy.
pub struct WorkspacePolicyParts {
    pub writable_roots: Vec<AbsPath>,
    pub exclude_tmpdir_env_var: bool,
    pub exclude_slash_tmp: bool,
}

/// Extracts the workspace-write fields of a policy, if it has them.
pub fn workspace_policy_parts(policy: &SandboxPolicy) -> (parts: Option<WorkspacePolicyParts>)
    ensures
        parts is Some <==> policy@ is Workspace,
        parts is Some ==> {
            &&& Some(parts->Some_0.writable_roots.deep_view()) == spec_writable_of(policy@)
            &&& parts->Some_0.exclude_tmpdir_env_var == spec_excl_tmpdir_of(policy@)
            &&& parts->Some_0.exclude_slash_tmp == spec_excl_slash_tmp_of(policy@)
        },
{
    match policy {
        SandboxPolicy::WorkspaceWrite {
            writable_roots,
            exclude_tmpdir_env_var,
            exclude_slash_tmp,
            ..
        } => Some(
            WorkspacePolicyParts {
                writable_roots: clone_paths(writable_roots),
                exclude_tmpdir_env_var: *exclude_tmpdir_env_var,
                exclude_slash_tmp: *exclude_slash_tmp,
            },
        ),
        _ => None,
    }
}

/// Merges the writable roots of two sides; see [`spec_merge_writable`].
pub fn merge_workspace_roots(
    lhs: Option<&Vec<AbsPath>>,
    rhs: Option<&Vec<AbsPath>>,
) -> (roots: Vec<AbsPath>)
    ensures
        roots.deep_view() == spec_merge_writable(
            match lhs {
                Some(l) => Some(l.deep_view()),
                None => None,
            },
            match rhs {
                Some(r) => Some(r.deep_view()),
                None => None,
            },
        ),
{
    match (lhs, rhs) {
        (Some(l), Some(r)) => intersect_absolute_roots(l, r),
        (Some(l), None) => clone_paths(l),
        (None, Some(r)) => clone_paths(r),
        (None, None) => {
            let empty: Vec<AbsPath> = Vec::new();
            proof {
                assert(empty.deep_view() =~= Seq::<PathV>::empty());
            }
            empty
        },
    }
}

/// Merges two sandbox policies into their meet; see
/// [`spec_merge_policies`].
pub fn merge_sandbox_policies(lhs: &SandboxPolicy, rhs: &SandboxPolicy) -> (merged: SandboxPolicy)
    ensures
        merged@ == spec_merge_policies(lhs@, rhs@),
{
    let network_access = lhs.has_full_network_access() && rhs.has_full_network_access();
    let lhs_kind = write_access_kind(lhs);
    let rhs_kind = write_access_kind(rhs);
    let strictest_write = if write_kind_rank(lhs_kind) >= write_kind_rank(rhs_kind) {
        lhs_kind
    } else {
        rhs_kind
    };
    let read_access = merge_read_only_access(
        read_access_for_policy(lhs),
        read_access_for_policy(rhs),
    );

    match strictest_write {
        WriteAccessKind::ReadOnly => SandboxPolicy::ReadOnly { access: read_access },
        WriteAccessKind::WorkspaceWrite => {
            let lhs_workspace = workspace_policy_parts(lhs);
            let rhs_workspace = workspace_policy_parts(rhs);
            let writable_roots = merge_workspace_roots(
                match &lhs_workspace {
                    Some(parts) => Some(&parts.writable_roots),
                    None => None,
                },
                match &rhs_workspace {
                    Some(parts) => Some(&parts.writable_roots),
                    None => None,
                },
            );
            let exclude_tmpdir_env_var = (match &lhs_workspace {
                Some(parts) => parts.exclude_tmpdir_env_var,
                None => false,
            }) || (match &rhs_workspace {
                Some(parts) => parts.exclude_tmpdir_env_var,
                None => false,
            });
            let exclude_slash_tmp = (match &lhs_workspace {
                Some(parts) => parts.exclude_slash_tmp,
                None => false,
            }) || (match &rhs_workspace {
                Some(parts) => parts.exclude_slash_tmp,
                None => false,
            });
            SandboxPolicy::WorkspaceWrite {
                writable_roots,
                read_only_access: read_access,
                network_access,
                exclude_tmpdir_env_var,
                exclude_slash_tmp,
            }
        },
        WriteAccessKind::FullAccess => {
            if network_access {
                if matches!(lhs, SandboxPolicy::ExternalSandbox { .. }) || matches!(
                    rhs,
                    SandboxPolicy::ExternalSandbox { .. },
                ) {
                    SandboxPolicy::ExternalSandbox { network_access: NetworkAccess::Enabled }
                } else {
                    SandboxPolicy::FullAccess
                }
            } else {
                SandboxPolicy::ExternalSandbox { network_access: NetworkAccess::Restricted }
            }
        },
    }
}

/// The rank of a write-capability class, as a machine integer.
fn write_kind_rank(kind: WriteAccessKind) -> (rank: u8)
    ensures
        rank as int == spec_write_kind_rank(kind),
{
    match kind {
        WriteAccessKind::FullAccess => 0,
        WriteAccessKind::WorkspaceWrite => 1,
        WriteAccessKind::ReadOnly => 2,
    }
}

} // verus!

verus! {

/// Whether a policy allows writing somewhere under the given path.
pub open spec fn spec_grants_write(p: SandboxPolicyV, path: PathV) -> bool {
    match p {
        SandboxPolicyV::Full => true,
        SandboxPolicyV::External { .. } => true,
        SandboxPolicyV::Workspace { writable_roots, .. } => exists|i: int|
            0 <= i < writable_roots.len() && is_path_prefix(#[trigger] writable_roots[i], path),
        SandboxPolicyV::ReadOnly { .. } => false,
    }
}

/// Whether a read capability allows reading under the given path, beyond
/// the platform defaults.
pub open spec fn spec_grants_read(a: ReadAccessV, path: PathV) -> bool {
    match a {
        ReadAccessV::Full => true,
        ReadAccessV::Restricted { readable_roots, .. } => exists|i: int|
            0 <= i < readable_roots.len() && is_path_prefix(#[trigger] readable_roots[i], path),
    }
}

/// The merge is a meet: the merged policy grants network only when both
/// inputs grant it, its write rank is at least as restrictive as either
/// input's, and every write or read it allows is allowed by both inputs.
pub proof fn lemma_merge_is_meet(lhs: SandboxPolicyV, rhs: SandboxPolicyV)
    ensures
        spec_network_of(spec_merge_policies(lhs, rhs)) == (spec_network_of(lhs)
            && spec_network_of(rhs)),
        spec_write_rank(spec_merge_policies(lhs, rhs)) >= spec_write_rank(lhs),
        spec_write_rank(spec_merge_policies(lhs, rhs)) >= spec_write_rank(rhs),
        forall|path: PathV|
            #[trigger] spec_grants_write(spec_merge_policies(lhs, rhs), path)
                ==> spec_grants_write(lhs, path) && spec_grants_write(rhs, path),
        forall|path: PathV|
            #[trigger] spec_grants_read(spec_read_access_of(spec_merge_policies(lhs, rhs)), path)
                ==> spec_grants_read(spec_read_access_of(lhs), path) && spec_grants_read(
                spec_read_access_of(rhs),
                path,
            ),
{
    let merged = spec_merge_policies(lhs, rhs);
    assert forall|path: PathV| #[trigger] spec_grants_write(merged, path)
        implies spec_grants_write(lhs, path) && spec_grants_write(rhs, path) by {
        if merged is Workspace {
            let roots = merged->Workspace_writable_roots;
            let i = choose|i: int|
                0 <= i < roots.len() && is_path_prefix(#[trigger] roots[i], path);
            match (spec_writable_of(lhs), spec_writable_of(rhs)) {
                (Some(l), Some(r)) => {
                    lemma_intersect_roots_meet(l, r);
                    assert(spec_intersect_roots(l, r).contains(roots[i]));
                    let li = choose|li: int|
                        0 <= li < l.len() && is_path_prefix(#[trigger] l[li], roots[i]);
                    let ri = choose|ri: int|
                        0 <= ri < r.len() && is_path_prefix(#[trigger] r[ri], roots[i]);
                    lemma_path_prefix_trans(l[li], roots[i], path);
                    lemma_path_prefix_trans(r[ri], roots[i], path);
                },
                (Some(l), None) => {
                    assert(is_path_prefix(l[i], path));
                },
                (None, Some(r)) => {
                    assert(is_path_prefix(r[i], path));
                },
                (None, None) => {
                    assert(roots.len() == 0);
                },
            }
        }
    }
    let mr = spec_read_access_of(merged);
    let la = spec_read_access_of(lhs);
    let ra = spec_read_access_of(rhs);
    assert forall|path: PathV| #[trigger] spec_grants_read(mr, path) implies spec_grants_read(
        la,
        path,
    ) && spec_grants_read(ra, path) by {
        assert(mr == spec_merge_read_access(la, ra));
        if mr is Restricted {
            let roots = mr->Restricted_readable_roots;
            let i = choose|i: int|
                0 <= i < roots.len() && is_path_prefix(#[trigger] roots[i], path);
            match (la, ra) {
                (
                    ReadAccessV::Restricted { readable_roots: l, .. },
                    ReadAccessV::Restricted { readable_roots: r, .. },
                ) => {
                    lemma_intersect_roots_meet(l, r);
                    assert(spec_intersect_roots(l, r).contains(roots[i]));
                    let li = choose|li: int|
                        0 <= li < l.len() && is_path_prefix(#[trigger] l[li], roots[i]);
                    let ri = choose|ri: int|
                        0 <= ri < r.len() && is_path_prefix(#[trigger] r[ri], roots[i]);
                    lemma_path_prefix_trans(l[li], roots[i], path);
                    lemma_path_prefix_trans(r[ri], roots[i], path);
                },
                _ => {},
            }
        }
    }
}

/// A read capability whose roots neither repeat nor nest.
pub open spec fn read_access_normal(a: ReadAccessV) -> bool {
    match a {
        ReadAccessV::Full => true,
        ReadAccessV::Restricted { readable_roots, .. } => roots_distinct(readable_roots)
            && roots_antichain(readable_roots),
    }
}

/// A policy whose root lists neither repeat nor nest.  Merging such a
/// policy with itself reproduces it exactly; a list with one root nested
/// beneath another can change its order or collapse under a self-merge.
pub open spec fn policy_roots_normal(p: SandboxPolicyV) -> bool {
    match p {
        SandboxPolicyV::Workspace { writable_roots, read_only_access, .. } => roots_distinct(
            writable_roots,
        ) && roots_antichain(writable_roots) && read_access_normal(read_only_access),
        SandboxPolicyV::ReadOnly { access } => read_access_normal(access),
        _ => true,
    }
}

/// Merging a policy with itself gives it back unchanged.
pub proof fn lemma_merge_idempotent(p: SandboxPolicyV)
    requires
        policy_roots_normal(p),
    ensures
        spec_merge_policies(p, p) == p,
{
    match p {
        SandboxPolicyV::Workspace { writable_roots, read_only_access, .. } => {
            lemma_intersect_roots_self(writable_roots);
            match read_only_access {
                ReadAccessV::Restricted { readable_roots, .. } => {
                    lemma_intersect_roots_self(readable_roots);
                },
                ReadAccessV::Full => {},
            }
        },
        SandboxPolicyV::ReadOnly { access } => {
            match access {
                ReadAccessV::Restricted { readable_roots, .. } => {
                    lemma_intersect_roots_self(readable_roots);
                },
                ReadAccessV::Full => {},
            }
        },
        _ => {},
    }
}

/// Whether two read capabilities restrict reads the same way: the same
/// shape, the same platform-default flag, and the same set of roots.
pub open spec fn read_access_equiv(a: ReadAccessV, b: ReadAccessV) -> bool {
    match (a, b) {
        (ReadAccessV::Full, ReadAccessV::Full) => true,
        (
            ReadAccessV::Restricted { include_platform_defaults: ad, readable_roots: ar },
            ReadAccessV::Restricted { include_platform_defaults: bd, readable_roots: br },
        ) => ad == bd && (forall|x: PathV| #[trigger] ar.contains(x) <==> br.contains(x)),
        _ => false,
    }
}

/// Whether two optional root lists hold the same set of roots.
pub open spec fn writable_roots_equiv(a: Option<Seq<PathV>>, b: Option<Seq<PathV>>) -> bool {
    match (a, b) {
        (None, None) => true,
        (Some(ar), Some(br)) => forall|x: PathV| #[trigger] ar.contains(x) <==> br.contains(x),
        _ => false,
    }
}

/// The merge is order-independent: both orders agree on the network
/// grant, the write rank, the exclusion flags, the read restriction and
/// the set of writable roots; an unrestricted-class result is identical.
pub proof fn lemma_merge_commutative(lhs: SandboxPolicyV, rhs: SandboxPolicyV)
    ensures
        spec_network_of(spec_merge_policies(lhs, rhs)) == spec_network_of(
            spec_merge_policies(rhs, lhs),
        ),
        spec_write_rank(spec_merge_policies(lhs, rhs)) == spec_write_rank(
            spec_merge_policies(rhs, lhs),
        ),
        spec_excl_tmpdir_of(spec_merge_policies(lhs, rhs)) == spec_excl_tmpdir_of(
            spec_merge_policies(rhs, lhs),
        ),
        spec_excl_slash_tmp_of(spec_merge_policies(lhs, rhs)) == spec_excl_slash_tmp_of(
            spec_merge_policies(rhs, lhs),
        ),
        spec_write_rank(spec_merge_policies(lhs, rhs)) == 0 ==> spec_merge_policies(lhs, rhs)
            == spec_merge_policies(rhs, lhs),
        read_access_equiv(
            spec_read_access_of(spec_merge_policies(lhs, rhs)),
            spec_read_access_of(spec_merge_policies(rhs, lhs)),
        ),
        writable_roots_equiv(
            spec_writable_of(spec_merge_policies(lhs, rhs)),
            spec_writable_of(spec_merge_policies(rhs, lhs)),
        ),
{
    let la = spec_read_access_of(lhs);
    let ra = spec_read_access_of(rhs);
    match (la, ra) {
        (
            ReadAccessV::Restricted { readable_roots: l, .. },
            ReadAccessV::Restricted { readable_roots: r, .. },
        ) => {
            lemma_intersect_roots_comm(l, r);
        },
        _ => {},
    }
    match (spec_writable_of(lhs), spec_writable_of(rhs)) {
        (Some(l), Some(r)) => {
            lemma_intersect_roots_comm(l, r);
        },
        _ => {},
    }
}

} // verus!

verus! {

/// Merging a policy with itself is idempotent up to the order and
/// multiplicity of its listed roots: both sides agree on the network
/// grant, the write rank, the exclusion flags, the read restriction and
/// the set of writable roots; an unrestricted-class policy comes back
/// identical.
pub proof fn lemma_merge_self_equivalent(p: SandboxPolicyV)
    ensures
        spec_network_of(spec_merge_policies(p, p)) == spec_network_of(p),
        spec_write_rank(spec_merge_policies(p, p)) == spec_write_rank(p),
        spec_excl_tmpdir_of(spec_merge_policies(p, p)) == spec_excl_tmpdir_of(p),
        spec_excl_slash_tmp_of(spec_merge_policies(p, p)) == spec_excl_slash_tmp_of(p),
        spec_write_rank(p) == 0 ==> spec_merge_policies(p, p) == p,
        read_access_equiv(spec_read_access_of(spec_merge_policies(p, p)), spec_read_access_of(p)),
        writable_roots_equiv(spec_writable_of(spec_merge_policies(p, p)), spec_writable_of(p)),
{
    match spec_read_access_of(p) {
        ReadAccessV::Restricted { readable_roots, .. } => {
            crate::paths::lemma_intersect_roots_self_set(readable_roots);
        },
        ReadAccessV::Full => {},
    }
    match spec_writable_of(p) {
        Some(roots) => {
            crate::paths::lemma_intersect_roots_self_set(roots);
        },
        None => {},
    }
}

} // verus!
