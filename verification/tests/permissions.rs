//! Tests of the permission compiler, the policy merge and the resolver.

use skillgate::compiler::CapabilityProfile;
use skillgate::compiler::SkillManifestFileSystemPermissions;
use skillgate::compiler::SkillManifestPermissions;
use skillgate::compiler::compile_permission_profile;
use skillgate::matcher::SkillMatchCandidate;
use skillgate::matcher::SkillRecord;
use skillgate::matcher::collect_skill_candidates;
use skillgate::matcher::select_best_index;
use skillgate::paths::AbsPath;
use skillgate::paths::compare_path_specificity;
use skillgate::paths::count_path_components;
use skillgate::paths::intersect_absolute_roots;
use skillgate::paths::normalize_lexically;
use skillgate::paths::split_slash;
use skillgate::platform::MacOsAutomationPermission;
use skillgate::platform::MacOsAutomationValue;
use skillgate::platform::MacOsPreferencesPermission;
use skillgate::platform::MacOsPreferencesValue;
use skillgate::platform::SkillManifestMacOsPermissions;
use skillgate::policy::ApprovalPolicy;
use skillgate::policy::NetworkAccess;
use skillgate::policy::ReadOnlyAccess;
use skillgate::policy::SandboxPolicy;
use skillgate::policy::WriteAccessKind;
use skillgate::policy::approval_policy_rank;
use skillgate::policy::merge_sandbox_policies;
use skillgate::policy::stricter_approval_policy;
use skillgate::policy::write_access_kind;
use skillgate::resolver::resolve_effective_command_permissions;

fn abs(s: &str) -> AbsPath {
    AbsPath::from_string(s).expect("absolute path")
}

fn demo_manifest() -> SkillManifestPermissions {
    SkillManifestPermissions {
        network: false,
        file_system: SkillManifestFileSystemPermissions {
            read: vec!["./data".to_string()],
            write: vec!["./output".to_string()],
        },
        macos: SkillManifestMacOsPermissions::default(),
    }
}

fn demo_skill(skill_dir: &str, manifest: Option<SkillManifestPermissions>) -> SkillRecord {
    let dir = abs(skill_dir);
    let profile: Option<CapabilityProfile> =
        compile_permission_profile(&dir, manifest.as_ref());
    let mut file = skill_dir.to_string();
    file.push_str("/SKILL.md");
    SkillRecord {
        name: "demo".to_string(),
        path: abs(&file),
        permission_profile: profile,
    }
}

#[test]
fn compile_permission_profile_normalizes_paths() {
    let skill_dir = abs("/repo/skill");
    let manifest = SkillManifestPermissions {
        network: true,
        file_system: SkillManifestFileSystemPermissions {
            read: vec![
                "./data".to_string(),
                "./data".to_string(),
                "scripts/../data".to_string(),
            ],
            write: vec!["./output".to_string()],
        },
        macos: SkillManifestMacOsPermissions::default(),
    };
    let profile = compile_permission_profile(&skill_dir, Some(&manifest)).expect("profile");
    assert_eq!(profile.approval_policy, ApprovalPolicy::Never);
    match profile.sandbox_policy {
        SandboxPolicy::WorkspaceWrite {
            writable_roots,
            read_only_access,
            network_access,
            exclude_tmpdir_env_var,
            exclude_slash_tmp,
        } => {
            assert_eq!(writable_roots, vec![abs("/repo/skill/output")]);
            assert!(network_access);
            assert!(!exclude_tmpdir_env_var);
            assert!(!exclude_slash_tmp);
            match read_only_access {
                ReadOnlyAccess::Restricted { include_platform_defaults, readable_roots } => {
                    assert!(include_platform_defaults);
                    // the duplicate and the `scripts/..` spelling collapse
                    assert_eq!(readable_roots, vec![abs("/repo/skill/data")]);
                }
                ReadOnlyAccess::FullAccess => panic!("read access should be restricted"),
            }
        }
        other => panic!("expected a workspace-write policy, got {other:?}"),
    }
}

#[test]
fn compile_permission_profile_without_permissions_has_empty_profile() {
    let skill_dir = abs("/repo/skill");
    assert!(compile_permission_profile(&skill_dir, None).is_none());
}

#[test]
fn compile_write_only_manifest_gives_full_read_access() {
    let skill_dir = abs("/repo/skill");
    let manifest = SkillManifestPermissions {
        network: false,
        file_system: SkillManifestFileSystemPermissions {
            read: vec![],
            write: vec!["./out".to_string()],
        },
        macos: SkillManifestMacOsPermissions::default(),
    };
    let profile = compile_permission_profile(&skill_dir, Some(&manifest)).expect("profile");
    match profile.sandbox_policy {
        SandboxPolicy::WorkspaceWrite { read_only_access, .. } => {
            assert!(matches!(read_only_access, ReadOnlyAccess::FullAccess));
        }
        other => panic!("expected a workspace-write policy, got {other:?}"),
    }
}

#[test]
fn compile_read_only_manifest_gives_restricted_read_only() {
    let skill_dir = abs("/repo/skill");
    let manifest = SkillManifestPermissions {
        network: false,
        file_system: SkillManifestFileSystemPermissions {
            read: vec!["./data".to_string()],
            write: vec![],
        },
        macos: SkillManifestMacOsPermissions::default(),
    };
    let profile = compile_permission_profile(&skill_dir, Some(&manifest)).expect("profile");
    match profile.sandbox_policy {
        SandboxPolicy::ReadOnly { access } => match access {
            ReadOnlyAccess::Restricted { include_platform_defaults, readable_roots } => {
                assert!(include_platform_defaults);
                assert_eq!(readable_roots, vec![abs("/repo/skill/data")]);
            }
            ReadOnlyAccess::FullAccess => panic!("read access should be restricted"),
        },
        other => panic!("expected a read-only policy, got {other:?}"),
    }
}

#[test]
fn merge_grants_network_only_when_both_sides_do() {
    let with_network = SandboxPolicy::WorkspaceWrite {
        writable_roots: vec![abs("/a")],
        read_only_access: ReadOnlyAccess::FullAccess,
        network_access: true,
        exclude_tmpdir_env_var: false,
        exclude_slash_tmp: false,
    };
    let merged = merge_sandbox_policies(&with_network, &SandboxPolicy::FullAccess);
    assert!(merged.has_full_network_access());
    let no_network = SandboxPolicy::new_read_only_policy();
    let merged = merge_sandbox_policies(&with_network, &no_network);
    assert!(!merged.has_full_network_access());
}

#[test]
fn merge_takes_the_stricter_write_rank() {
    let workspace = SandboxPolicy::WorkspaceWrite {
        writable_roots: vec![abs("/a")],
        read_only_access: ReadOnlyAccess::FullAccess,
        network_access: true,
        exclude_tmpdir_env_var: false,
        exclude_slash_tmp: false,
    };
    let read_only = SandboxPolicy::new_read_only_policy();
    assert_eq!(
        write_access_kind(&merge_sandbox_policies(&workspace, &read_only)),
        WriteAccessKind::ReadOnly
    );
    assert_eq!(
        write_access_kind(&merge_sandbox_policies(&SandboxPolicy::FullAccess, &workspace)),
        WriteAccessKind::WorkspaceWrite
    );
}

#[test]
fn merge_of_equal_policies_reproduces_them() {
    let policy = SandboxPolicy::WorkspaceWrite {
        writable_roots: vec![abs("/a"), abs("/b")],
        read_only_access: ReadOnlyAccess::Restricted {
            include_platform_defaults: true,
            readable_roots: vec![abs("/c")],
        },
        network_access: true,
        exclude_tmpdir_env_var: false,
        exclude_slash_tmp: true,
    };
    let merged = merge_sandbox_policies(&policy, &policy);
    match merged {
        SandboxPolicy::WorkspaceWrite {
            writable_roots,
            read_only_access,
            network_access,
            exclude_tmpdir_env_var,
            exclude_slash_tmp,
        } => {
            assert_eq!(writable_roots, vec![abs("/a"), abs("/b")]);
            assert!(network_access);
            assert!(!exclude_tmpdir_env_var);
            assert!(exclude_slash_tmp);
            match read_only_access {
                ReadOnlyAccess::Restricted { readable_roots, .. } => {
                    assert_eq!(readable_roots, vec![abs("/c")]);
                }
                ReadOnlyAccess::FullAccess => panic!("read access should be restricted"),
            }
        }
        other => panic!("expected a workspace-write policy, got {other:?}"),
    }
}

#[test]
fn merge_is_order_independent_on_its_axes() {
    let lhs = SandboxPolicy::WorkspaceWrite {
        writable_roots: vec![abs("/a"), abs("/c/d")],
        read_only_access: ReadOnlyAccess::FullAccess,
        network_access: true,
        exclude_tmpdir_env_var: true,
        exclude_slash_tmp: false,
    };
    let rhs = SandboxPolicy::WorkspaceWrite {
        writable_roots: vec![abs("/a/b"), abs("/c")],
        read_only_access: ReadOnlyAccess::FullAccess,
        network_access: true,
        exclude_tmpdir_env_var: false,
        exclude_slash_tmp: false,
    };
    let one = merge_sandbox_policies(&lhs, &rhs);
    let two = merge_sandbox_policies(&rhs, &lhs);
    match (one, two) {
        (
            SandboxPolicy::WorkspaceWrite {
                writable_roots: mut a,
                network_access: na,
                exclude_tmpdir_env_var: ta,
                ..
            },
            SandboxPolicy::WorkspaceWrite {
                writable_roots: mut b,
                network_access: nb,
                exclude_tmpdir_env_var: tb,
                ..
            },
        ) => {
            assert_eq!(na, nb);
            assert_eq!(ta, tb);
            let key = |p: &AbsPath| p.to_string();
            a.sort_by_key(key);
            b.sort_by_key(key);
            assert_eq!(a, b);
            assert_eq!(a, vec![abs("/a/b"), abs("/c/d")]);
        }
        other => panic!("expected workspace-write policies, got {other:?}"),
    }
}

#[test]
fn intersection_of_disjoint_roots_is_empty() {
    let merged = intersect_absolute_roots(&vec![abs("/a")], &vec![abs("/b")]);
    assert!(merged.is_empty());
}

#[test]
fn intersection_of_nested_roots_keeps_the_nested_one() {
    let merged = intersect_absolute_roots(&vec![abs("/a")], &vec![abs("/a/b")]);
    assert_eq!(merged, vec![abs("/a/b")]);
}

#[test]
fn intersection_collapses_duplicate_roots() {
    let merged = intersect_absolute_roots(&vec![abs("/a"), abs("/a")], &vec![abs("/a")]);
    assert_eq!(merged, vec![abs("/a")]);
}

#[test]
fn merge_of_unrestricted_sides_keeps_the_external_marker() {
    let external = SandboxPolicy::ExternalSandbox { network_access: NetworkAccess::Enabled };
    let merged = merge_sandbox_policies(&SandboxPolicy::FullAccess, &external);
    assert!(matches!(
        merged,
        SandboxPolicy::ExternalSandbox { network_access: NetworkAccess::Enabled }
    ));
    let merged = merge_sandbox_policies(&SandboxPolicy::FullAccess, &SandboxPolicy::FullAccess);
    assert!(matches!(merged, SandboxPolicy::FullAccess));
}

#[test]
fn approval_policy_order_is_fixed() {
    assert_eq!(approval_policy_rank(ApprovalPolicy::OnFailure), 0);
    assert_eq!(approval_policy_rank(ApprovalPolicy::OnRequest), 1);
    assert_eq!(approval_policy_rank(ApprovalPolicy::UnlessTrusted), 2);
    assert_eq!(approval_policy_rank(ApprovalPolicy::Never), 3);
    assert_eq!(
        stricter_approval_policy(ApprovalPolicy::OnRequest, ApprovalPolicy::Never),
        ApprovalPolicy::Never
    );
    assert_eq!(
        stricter_approval_policy(ApprovalPolicy::Never, ApprovalPolicy::OnFailure),
        ApprovalPolicy::Never
    );
}

#[test]
fn resolve_effective_permissions_matches_skill_by_cwd() {
    let skill = demo_skill("/repo/skills/demo", Some(demo_manifest()));
    let effective = resolve_effective_command_permissions(
        &vec!["/bin/echo".to_string(), "hello".to_string()],
        &abs("/repo/skills/demo"),
        ApprovalPolicy::OnRequest,
        &SandboxPolicy::FullAccess,
        &abs("/repo"),
        None,
        &vec![skill],
        &vec![],
    );
    assert_eq!(effective.approval_policy, ApprovalPolicy::Never);
    assert_eq!(effective.sandbox_cwd, abs("/repo/skills/demo"));
    match effective.sandbox_policy {
        SandboxPolicy::WorkspaceWrite { writable_roots, .. } => {
            assert_eq!(writable_roots, vec![abs("/repo/skills/demo/output")]);
        }
        other => panic!("skill profile should restrict the sandbox policy, got {other:?}"),
    }
}

#[test]
fn resolve_effective_permissions_matches_skill_by_command_path() {
    let skill = demo_skill("/repo/skills/demo", Some(demo_manifest()));
    let effective = resolve_effective_command_permissions(
        &vec!["/repo/skills/demo/bin/run.sh".to_string()],
        &abs("/repo"),
        ApprovalPolicy::OnRequest,
        &SandboxPolicy::FullAccess,
        &abs("/repo"),
        None,
        &vec![skill],
        &vec![],
    );
    assert_eq!(effective.approval_policy, ApprovalPolicy::Never);
    assert_eq!(effective.sandbox_cwd, abs("/repo/skills/demo"));
}

#[test]
fn resolve_effective_permissions_ignores_disabled_skill() {
    let skill = demo_skill("/repo/skills/demo", Some(demo_manifest()));
    let disabled = vec![abs("/repo/skills/demo/SKILL.md")];
    let effective = resolve_effective_command_permissions(
        &vec!["/bin/echo".to_string(), "hello".to_string()],
        &abs("/repo/skills/demo"),
        ApprovalPolicy::OnRequest,
        &SandboxPolicy::FullAccess,
        &abs("/repo"),
        None,
        &vec![skill],
        &disabled,
    );
    assert_eq!(effective.approval_policy, ApprovalPolicy::OnRequest);
    assert_eq!(effective.sandbox_cwd, abs("/repo"));
    assert!(matches!(effective.sandbox_policy, SandboxPolicy::FullAccess));
}

#[test]
fn resolve_effective_permissions_does_not_loosen_turn_read_only_policy() {
    let manifest = SkillManifestPermissions {
        network: true,
        file_system: SkillManifestFileSystemPermissions {
            read: vec![],
            write: vec!["./output".to_string()],
        },
        macos: SkillManifestMacOsPermissions::default(),
    };
    let skill = demo_skill("/repo/skills/demo", Some(manifest));
    let effective = resolve_effective_command_permissions(
        &vec!["/bin/echo".to_string(), "hello".to_string()],
        &abs("/repo/skills/demo"),
        ApprovalPolicy::OnRequest,
        &SandboxPolicy::new_read_only_policy(),
        &abs("/repo"),
        None,
        &vec![skill],
        &vec![],
    );
    assert!(matches!(effective.sandbox_policy, SandboxPolicy::ReadOnly { .. }));
}

#[test]
fn more_specific_skill_directory_wins() {
    let outer = demo_skill("/repo/skills", Some(demo_manifest()));
    let inner = demo_skill("/repo/skills/demo", Some(demo_manifest()));
    let effective = resolve_effective_command_permissions(
        &vec!["/bin/echo".to_string()],
        &abs("/repo/skills/demo/sub"),
        ApprovalPolicy::OnRequest,
        &SandboxPolicy::FullAccess,
        &abs("/repo"),
        None,
        &vec![outer, inner],
        &vec![],
    );
    assert_eq!(effective.sandbox_cwd, abs("/repo/skills/demo"));
}

#[test]
fn compile_permission_profile_builds_macos_extensions() {
    let skill_dir = abs("/repo/skill");
    let manifest = SkillManifestPermissions {
        network: false,
        file_system: SkillManifestFileSystemPermissions { read: vec![], write: vec![] },
        macos: SkillManifestMacOsPermissions {
            preferences: Some(MacOsPreferencesValue::Mode("readwrite".to_string())),
            automations: Some(MacOsAutomationValue::BundleIds(vec![
                "com.apple.Notes".to_string(),
            ])),
            accessibility: true,
            calendar: true,
        },
    };
    let profile = compile_permission_profile(&skill_dir, Some(&manifest)).expect("profile");
    let extensions = profile.macos_seatbelt_profile_extensions.expect("extensions");
    assert_eq!(extensions.macos_preferences, MacOsPreferencesPermission::ReadWrite);
    match extensions.macos_automation {
        MacOsAutomationPermission::BundleIds(ids) => {
            assert_eq!(ids, vec!["com.apple.Notes".to_string()]);
        }
        other => panic!("expected bundle identifiers, got {other:?}"),
    }
    assert!(extensions.macos_accessibility);
    assert!(extensions.macos_calendar);
}

#[test]
fn compile_permission_profile_uses_macos_defaults_when_values_missing() {
    let skill_dir = abs("/repo/skill");
    let manifest = SkillManifestPermissions::default();
    let profile = compile_permission_profile(&skill_dir, Some(&manifest)).expect("profile");
    let extensions = profile.macos_seatbelt_profile_extensions.expect("extensions");
    assert_eq!(extensions.macos_preferences, MacOsPreferencesPermission::ReadOnly);
    assert!(matches!(extensions.macos_automation, MacOsAutomationPermission::All));
    assert!(!extensions.macos_accessibility);
    assert!(!extensions.macos_calendar);
}

#[test]
fn unrecognized_preferences_mode_falls_to_the_most_restrictive() {
    let resolved = skillgate::platform::resolve_macos_preferences_permission(
        Some(&MacOsPreferencesValue::Mode("sideways".to_string())),
        MacOsPreferencesPermission::ReadOnly,
    );
    assert_eq!(resolved, MacOsPreferencesPermission::Denied);
}

#[test]
fn candidate_selection_is_most_specific_with_later_wins_ties() {
    let profile = compile_permission_profile(&abs("/repo/skills/demo"), Some(&demo_manifest()))
        .expect("profile");
    let candidate = |dir: &str, matched: bool| SkillMatchCandidate {
        profile: profile.clone(),
        skill_dir: abs(dir),
        matched,
    };
    // no matching candidate: nothing selected
    assert!(select_best_index(&vec![candidate("/a", false)]).is_none());
    // the deeper directory wins over the shallower
    let picked = select_best_index(&vec![
        candidate("/repo/skills", true),
        candidate("/repo/skills/demo", true),
        candidate("/unrelated", false),
    ])
    .expect("selection");
    assert_eq!(picked, 1);
    // equal depth: the lexically larger one wins; equal directories: the later wins
    let picked = select_best_index(&vec![candidate("/a/b", true), candidate("/a/a", true)])
        .expect("selection");
    assert_eq!(picked, 0);
    let picked = select_best_index(&vec![candidate("/a/b", true), candidate("/a/b", true)])
        .expect("selection");
    assert_eq!(picked, 1);

    // verdicts: the cwd match and a command-path match both count
    let skill = demo_skill("/repo/skills/demo", Some(demo_manifest()));
    let candidates = collect_skill_candidates(
        &abs("/repo/skills/demo/sub"),
        &vec![],
        &vec![skill],
        &vec![],
    );
    assert_eq!(candidates.len(), 1);
    assert!(candidates[0].matched);
    let skill = demo_skill("/repo/skills/demo", Some(demo_manifest()));
    let candidates = collect_skill_candidates(
        &abs("/elsewhere"),
        &vec![abs("/repo/skills/demo/data/x")],
        &vec![skill],
        &vec![],
    );
    assert!(candidates[0].matched);
    let skill = demo_skill("/repo/skills/demo", Some(demo_manifest()));
    let candidates =
        collect_skill_candidates(&abs("/elsewhere"), &vec![], &vec![skill], &vec![]);
    assert!(!candidates[0].matched);
}

#[test]
fn lexical_normalization_resolves_dots() {
    let raw = split_slash("/repo/scripts/../data/./x");
    let segs = normalize_lexically(&raw);
    assert_eq!(segs, vec!["repo".to_string(), "data".to_string(), "x".to_string()]);
    let above_root = normalize_lexically(&split_slash("/../a"));
    assert_eq!(above_root, vec!["a".to_string()]);
}

#[test]
fn path_specificity_prefers_depth_then_lexical_order() {
    let a = abs("/a/b");
    let b = abs("/a");
    assert_eq!(compare_path_specificity(&a, &b), 1);
    assert_eq!(compare_path_specificity(&b, &a), -1);
    assert_eq!(compare_path_specificity(&a, &abs("/a/b")), 0);
    assert_eq!(compare_path_specificity(&abs("/a/a"), &abs("/a/b")), -1);
    assert_eq!(count_path_components(&a), 2);
    assert_eq!(abs("/a/b").to_string(), "/a/b".to_string());
    assert_eq!(AbsPath::root().to_string(), "/".to_string());
    assert!(AbsPath::from_string("relative/path").is_none());
}

#[test]
fn flag_tokens_contribute_their_value_and_urls_never_match() {
    let skill = demo_skill("/repo/skills/demo", Some(demo_manifest()));
    let effective = resolve_effective_command_permissions(
        &vec!["tool".to_string(), "--input=/repo/skills/demo/data/x".to_string()],
        &abs("/repo"),
        ApprovalPolicy::OnRequest,
        &SandboxPolicy::FullAccess,
        &abs("/repo"),
        None,
        &vec![skill],
        &vec![],
    );
    assert_eq!(effective.approval_policy, ApprovalPolicy::Never);

    let skill = demo_skill("/repo/skills/demo", Some(demo_manifest()));
    let untouched = resolve_effective_command_permissions(
        &vec!["tool".to_string(), "https://example.com/repo/skills/demo".to_string()],
        &abs("/elsewhere"),
        ApprovalPolicy::OnRequest,
        &SandboxPolicy::FullAccess,
        &abs("/repo"),
        None,
        &vec![skill],
        &vec![],
    );
    assert_eq!(untouched.approval_policy, ApprovalPolicy::OnRequest);
}

#[test]
fn wrapped_shell_scripts_widen_the_match_surface() {
    let skill = demo_skill("/repo/skills/demo", Some(demo_manifest()));
    let effective = resolve_effective_command_permissions(
        &vec![
            "bash".to_string(),
            "-lc".to_string(),
            "cat /repo/skills/demo/data/x && ls".to_string(),
        ],
        &abs("/elsewhere"),
        ApprovalPolicy::OnRequest,
        &SandboxPolicy::FullAccess,
        &abs("/repo"),
        None,
        &vec![skill],
        &vec![],
    );
    assert_eq!(effective.approval_policy, ApprovalPolicy::Never);
}
