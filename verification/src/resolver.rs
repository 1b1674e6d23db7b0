//! The effective permission resolver: composes the skill matcher with the
//! policy merger to produce the permissions actually applied to one
//! command.

use crate::compiler::CapabilityProfileV;
use crate::matcher::MatchedSkillPermissionProfile;
use crate::matcher::SkillRecord;
use crate::matcher::find_matching_skill_permission_profile;
use crate::matcher::skill_eligible;
use crate::paths::AbsPath;
use crate::paths::PathV;
use crate::platform::MacOsSeatbeltProfileExtensions;
use crate::platform::SeatbeltExtensionsV;
use crate::policy::ApprovalPolicy;
use crate::policy::SandboxPolicy;
use crate::policy::SandboxPolicyV;
use crate::policy::merge_sandbox_policies;
use crate::policy::spec_merge_policies;
use crate::policy::spec_stricter_approval_policy;
use crate::policy::stricter_approval_policy;
use vstd::prelude::*;

verus! {

/// The permissions actually applied to one command.
#[derive(Debug)]
pub struct EffectiveCommandPermissions {
    pub approval_policy: ApprovalPolicy,
    pub sandbox_policy: SandboxPolicy,
    pub sandbox_cwd: AbsPath,
    pub macos_seatbelt_profile_extensions: Option<MacOsSeatbeltProfileExtensions>,
}

/// The mathematical value of an [`EffectiveCommandPermissions`].
pub struct EffectivePermissionsV {
    pub approval_policy: ApprovalPolicy,
    pub sandbox_policy: SandboxPolicyV,
    pub sandbox_cwd: PathV,
    pub macos_seatbelt_profile_extensions: Option<SeatbeltExtensionsV>,
}

impl View for EffectiveCommandPermissions {
    type V = EffectivePermissionsV;

    open spec fn view(&self) -> EffectivePermissionsV {
        EffectivePermissionsV {
            approval_policy: self.approval_policy,
            sandbox_policy: self.sandbox_policy@,
            sandbox_cwd: self.sandbox_cwd@,
            macos_seatbelt_profile_extensions: match &self.macos_seatbelt_profile_extensions {
                Some(e) => Some(e@),
                None => None,
            },
        }
    }
}

/// What the resolver yields when a skill with the given profile matched:
/// the higher-ranked approval policy wins, the sandbox policies merge
/// into their meet, and the skill's extensions replace the turn's when it
/// declares any.
pub open spec fn resolved_with_profile(
    r: EffectivePermissionsV,
    turn_approval_policy: ApprovalPolicy,
    turn_sandbox_policy: SandboxPolicyV,
    turn_extensions: Option<SeatbeltExtensionsV>,
    profile: CapabilityProfileV,
) -> bool {
    &&& r.approval_policy == spec_stricter_approval_policy(
        turn_approval_policy,
        profile.approval_policy,
    )
    &&& r.sandbox_policy == spec_merge_policies(turn_sandbox_policy, profile.sandbox_policy)
    &&& r.macos_seatbelt_profile_extensions == (match profile.macos_seatbelt_profile_extensions {
        Some(e) => Some(e),
        None => turn_extensions,
    })
}

/// Applies a matched skill profile to the turn's defaults: no match
/// leaves all four values untouched; a match selects the higher-ranked
/// approval policy, replaces the sandbox policy with the meet of the two,
/// moves the sandbox working directory to the matched skill's directory,
/// and takes the skill's platform extensions when it declares any.  The
/// outcome is exact for every possible matcher result.
pub fn apply_matched_skill_profile(
    matched: Option<MatchedSkillPermissionProfile>,
    turn_approval_policy: ApprovalPolicy,
    turn_sandbox_policy: &SandboxPolicy,
    turn_sandbox_cwd: &AbsPath,
    turn_macos_seatbelt_profile_extensions: Option<&MacOsSeatbeltProfileExtensions>,
) -> (r: EffectiveCommandPermissions)
    ensures
        matched is None ==> {
            &&& r@.approval_policy == turn_approval_policy
            &&& r@.sandbox_policy == turn_sandbox_policy@
            &&& r@.sandbox_cwd == turn_sandbox_cwd@
            &&& r@.macos_seatbelt_profile_extensions == (match turn_macos_seatbelt_profile_extensions {
                Some(e) => Some(e@),
                None => None,
            })
        },
        matched is Some ==> {
            &&& r@.approval_policy == spec_stricter_approval_policy(
                turn_approval_policy,
                matched->Some_0.profile@.approval_policy,
            )
            &&& r@.sandbox_policy == spec_merge_policies(
                turn_sandbox_policy@,
                matched->Some_0.profile@.sandbox_policy,
            )
            &&& r@.sandbox_cwd == matched->Some_0.skill_dir@
            &&& r@.macos_seatbelt_profile_extensions == (match matched->Some_0.profile@
                .macos_seatbelt_profile_extensions {
                Some(e) => Some(e),
                None => match turn_macos_seatbelt_profile_extensions {
                    Some(e) => Some(e@),
                    None => None,
                },
            })
        },
{
    match matched {
        None => EffectiveCommandPermissions {
            approval_policy: turn_approval_policy,
            sandbox_policy: turn_sandbox_policy.clone(),
            sandbox_cwd: turn_sandbox_cwd.clone(),
            macos_seatbelt_profile_extensions: match turn_macos_seatbelt_profile_extensions {
                Some(e) => Some(e.clone()),
                None => None,
            },
        },
        Some(matched_skill) => {
            let approval_policy = stricter_approval_policy(
                turn_approval_policy,
                matched_skill.profile.approval_policy,
            );
            let sandbox_policy = merge_sandbox_policies(
                turn_sandbox_policy,
                &matched_skill.profile.sandbox_policy,
            );
            let macos_seatbelt_profile_extensions = match &matched_skill
                .profile
                .macos_seatbelt_profile_extensions {
                Some(extensions) => Some(extensions.clone()),
                None => {
                    match turn_macos_seatbelt_profile_extensions {
                        Some(e) => Some(e.clone()),
                        None => None,
                    }
                },
            };
            EffectiveCommandPermissions {
                approval_policy,
                sandbox_policy,
                sandbox_cwd: matched_skill.skill_dir,
                macos_seatbelt_profile_extensions,
            }
        },
    }
}

/// Resolves the permissions for one command: the turn's values are the
/// defaults; when the matcher finds a governing skill, its profile
/// narrows them via [`apply_matched_skill_profile`], which fixes the
/// outcome — including the sandbox working directory — for every matcher
/// result.  No skill match leaves the defaults untouched, and a skill
/// whose definition path is disabled, or which compiled to no profile,
/// never changes them.
pub fn resolve_effective_command_permissions(
    command: &Vec<String>,
    command_cwd: &AbsPath,
    turn_approval_policy: ApprovalPolicy,
    turn_sandbox_policy: &SandboxPolicy,
    turn_sandbox_cwd: &AbsPath,
    turn_macos_seatbelt_profile_extensions: Option<&MacOsSeatbeltProfileExtensions>,
    skills: &Vec<SkillRecord>,
    disabled_paths: &Vec<AbsPath>,
) -> (r: EffectiveCommandPermissions)
    ensures
        ({
            let turn_ext: Option<SeatbeltExtensionsV> = match turn_macos_seatbelt_profile_extensions {
                Some(e) => Some(e@),
                None => None,
            };
            ||| {
                &&& r@.approval_policy == turn_approval_policy
                &&& r@.sandbox_policy == turn_sandbox_policy@
                &&& r@.sandbox_cwd == turn_sandbox_cwd@
                &&& r@.macos_seatbelt_profile_extensions == turn_ext
            }
            ||| exists|i: int|
                0 <= i < skills@.len() && skill_eligible(
                    #[trigger] skills@[i]@,
                    disabled_paths.deep_view(),
                ) && resolved_with_profile(
                    r@,
                    turn_approval_policy,
                    turn_sandbox_policy@,
                    turn_ext,
                    skills@[i]@.permission_profile->Some_0,
                )
        }),
        (forall|i: int|
            0 <= i < skills@.len() ==> !skill_eligible(
                #[trigger] skills@[i]@,
                disabled_paths.deep_view(),
            )) ==> {
            &&& r@.approval_policy == turn_approval_policy
            &&& r@.sandbox_policy == turn_sandbox_policy@
            &&& r@.sandbox_cwd == turn_sandbox_cwd@
            &&& r@.macos_seatbelt_profile_extensions == (match turn_macos_seatbelt_profile_extensions {
                Some(e) => Some(e@),
                None => None,
            })
        },
{
    let matched = find_matching_skill_permission_profile(
        command,
        command_cwd,
        skills,
        disabled_paths,
    );
    apply_matched_skill_profile(
        matched,
        turn_approval_policy,
        turn_sandbox_policy,
        turn_sandbox_cwd,
        turn_macos_seatbelt_profile_extensions,
    )
}

} // verus!
