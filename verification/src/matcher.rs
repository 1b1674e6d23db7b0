//! The skill matcher: finds the most specific skill whose directory
//! governs a given command.

use crate::compiler::CapabilityProfile;
use crate::compiler::CapabilityProfileV;
use crate::compiler::expand_home;
use crate::compiler::normalize_runtime_absolute_path;
use crate::paths::AbsPath;
use crate::paths::PathV;
use crate::paths::is_path_prefix;
use crate::paths::compare_path_specificity;
use crate::paths::paths_contain;
use crate::paths::roots_distinct;
use crate::paths::split_slash;
use crate::strings::contains_sub;
use crate::strings::spec_contains_sub;
use crate::strings::spec_trim;
use crate::strings::trim;
use vstd::prelude::*;

verus! {

/// Whether a token looks like a path: it starts with `.` or `~`, or holds
/// a path separator.
pub open spec fn spec_is_path_like(t: Seq<char>) -> bool {
    ||| (t.len() > 0 && (t[0] == '.' || t[0] == '~'))
    ||| t.contains('/')
    ||| t.contains('\\')
}

/// Whether a token looks like a filesystem path.
pub fn is_path_like_token(token: &str) -> (r: bool)
    ensures
        r == spec_is_path_like(token@),
{
    if token.unicode_len() > 0 {
        let c = token.get_char(0);
        if c == '.' || c == '~' {
            return true;
        }
    }
    crate::strings::contains_char(token, '/') || crate::strings::contains_char(token, '\\')
}

/// The position of the first occurrence of a character, or the length of
/// the sequence when it is absent.
pub open spec fn spec_first_idx(s: Seq<char>, c: char) -> int
    decreases s.len(),
{
    if s.len() == 0 {
        0
    } else if s[0] == c {
        0
    } else {
        1 + spec_first_idx(s.drop_first(), c)
    }
}

fn find_char(s: &str, c: char) -> (r: usize)
    ensures
        r == spec_first_idx(s@, c),
        r <= s@.len(),
        r < s@.len() ==> s@[r as int] == c,
{
    let n = s.unicode_len();
    let mut i: usize = 0;
    proof {
        assert(s@.skip(0) =~= s@);
    }
    while i < n
        invariant
            i <= n,
            n == s@.len(),
            spec_first_idx(s@, c) == i + spec_first_idx(s@.skip(i as int), c),
        decreases n - i,
    {
        proof {
            assert(s@.skip(i as int)[0] == s@[i as int]);
            assert(s@.skip(i as int).drop_first() =~= s@.skip(i as int + 1));
        }
        if s.get_char(i) == c {
            return i;
        }
        i += 1;
    }
    proof {
        assert(s@.skip(n as int) =~= Seq::<char>::empty());
    }
    n
}

/// The path candidate one command token contributes: a flag token gives
/// the value after its first `=` when that value is non-empty and not a
/// URL; a path-like token gives itself; anything else gives nothing.
/// Tokens holding a URL scheme marker are excluded outright.
pub open spec fn spec_token_candidates(token: Seq<char>) -> Seq<Seq<char>> {
    let t = spec_trim(token);
    if t.len() == 0 || spec_contains_sub(t, "://"@) {
        Seq::<Seq<char>>::empty()
    } else if t[0] == '-' {
        let k = spec_first_idx(t, '=');
        if k < t.len() {
            let v = t.skip(k + 1);
            if spec_trim(v).len() > 0 && !spec_contains_sub(v, "://"@) {
                seq![v]
            } else {
                Seq::<Seq<char>>::empty()
            }
        } else {
            Seq::<Seq<char>>::empty()
        }
    } else if spec_is_path_like(t) {
        seq![t]
    } else {
        Seq::<Seq<char>>::empty()
    }
}

/// Appends the path candidate of one token, if it has one; see
/// [`spec_token_candidates`].
pub fn add_token_path_candidates(token: &str, output: &mut Vec<String>)
    ensures
        final(output).deep_view() == old(output).deep_view() + spec_token_candidates(token@),
{
    let ghost base = output.deep_view();
    let trimmed = trim(token);
    let n = trimmed.as_str().unicode_len();
    if n == 0 || contains_sub(trimmed.as_str(), "://") {
        proof {
            assert(base + spec_token_candidates(token@) =~= base);
        }
        return;
    }
    if trimmed.as_str().get_char(0) == '-' {
        let k = find_char(trimmed.as_str(), '=');
        if k < n {
            let value = trimmed.as_str().substring_char(k + 1, n).to_owned();
            proof {
                assert(value@ == spec_trim(token@).skip(k as int + 1));
            }
            let vt = trim(value.as_str());
            if vt.as_str().unicode_len() > 0 && !contains_sub(value.as_str(), "://") {
                let ghost dv = output.deep_view();
                output.push(value);
                proof {
                    assert(output.deep_view() =~= dv.push(value@));
                    assert(dv.push(value@) =~= base + spec_token_candidates(token@));
                }
            } else {
                proof {
                    assert(base + spec_token_candidates(token@) =~= base);
                }
            }
        } else {
            proof {
                assert(base + spec_token_candidates(token@) =~= base);
            }
        }
        return;
    }
    if is_path_like_token(trimmed.as_str()) {
        let ghost dv = output.deep_view();
        let t = trimmed;
        output.push(t);
        proof {
            assert(output.deep_view() =~= dv.push(spec_trim(token@)));
            assert(dv.push(spec_trim(token@)) =~= base + spec_token_candidates(token@));
        }
    } else {
        proof {
            assert(base + spec_token_candidates(token@) =~= base);
        }
    }
}

/// Resolves one path-like token against the command's working directory:
/// home expansion, then absolute or cwd-relative resolution, then
/// lexical and filesystem normalization.  Which absolute path comes back
/// depends on the filesystem, but it is always well-formed when the
/// working directory is.
pub fn normalize_runtime_token_path(token: &str, command_cwd: &AbsPath) -> (r: AbsPath)
    ensures
        crate::paths::path_wf(command_cwd@) ==> crate::paths::path_wf(r@),
{
    let expanded = expand_home(token);
    let base = if expanded.as_str().unicode_len() > 0 && expanded.as_str().get_char(0) == '/' {
        match AbsPath::from_string(expanded.as_str()) {
            Some(p) => p,
            None => AbsPath::root(),
        }
    } else {
        let rel = split_slash(expanded.as_str());
        command_cwd.join_under(&rel)
    };
    proof {
        if crate::paths::path_wf(command_cwd@) {
            assert(crate::paths::path_wf(base@));
        }
    }
    normalize_runtime_absolute_path(&base)
}

/// Whether some token contributes a path candidate.
pub open spec fn spec_tokens_have_candidates(tokens: Seq<Seq<char>>) -> bool {
    exists|i: int| 0 <= i < tokens.len() && spec_token_candidates(#[trigger] tokens[i]).len() > 0
}

/// How many path candidates a token list contributes in all.
pub open spec fn spec_total_candidates(tokens: Seq<Seq<char>>) -> int
    decreases tokens.len(),
{
    if tokens.len() == 0 {
        0
    } else {
        spec_total_candidates(tokens.drop_last()) + spec_token_candidates(tokens.last()).len()
    }
}

/// Resolves the path candidates of a token list and appends the new ones
/// to `paths`, skipping duplicates.  Existing entries are kept in place;
/// a duplicate-free list stays duplicate-free; every appended path is the
/// resolution of some token's candidate, so the list grows beyond its old
/// contents exactly when some token contributes a candidate, by at most
/// one path per candidate, and — for a well-formed working directory —
/// only by well-formed paths.  A candidate the filesystem cannot resolve
/// still yields its lexical fallback: resolution never fails and never
/// errs.
pub fn collect_paths_from_tokens(
    tokens: &Vec<String>,
    command_cwd: &AbsPath,
    paths: &mut Vec<AbsPath>,
)
    ensures
        final(paths).deep_view().len() >= old(paths).deep_view().len(),
        final(paths).deep_view().len() <= old(paths).deep_view().len() + spec_total_candidates(
            tokens.deep_view(),
        ),
        final(paths).deep_view().subrange(0, old(paths).deep_view().len() as int) == old(
            paths,
        ).deep_view(),
        roots_distinct(old(paths).deep_view()) ==> roots_distinct(final(paths).deep_view()),
        final(paths).deep_view().len() > 0 <==> (old(paths).deep_view().len() > 0
            || spec_tokens_have_candidates(tokens.deep_view())),
        crate::paths::path_wf(command_cwd@) && (forall|t: int|
            0 <= t < old(paths).deep_view().len() ==> crate::paths::path_wf(
                #[trigger] old(paths).deep_view()[t],
            )) ==> forall|t: int|
            0 <= t < final(paths).deep_view().len() ==> crate::paths::path_wf(
                #[trigger] final(paths).deep_view()[t],
            ),
{
    let ghost base = paths.deep_view();
    let ghost tv = tokens.deep_view();
    let mut i: usize = 0;
    proof {
        assert(tv.subrange(0, 0) =~= Seq::<Seq<char>>::empty());
    }
    while i < tokens.len()
        invariant
            i <= tokens.len(),
            tv == tokens.deep_view(),
            tv.len() == tokens@.len(),
            paths.deep_view().len() >= base.len(),
            paths.deep_view().len() <= base.len() + spec_total_candidates(
                tv.subrange(0, i as int),
            ),
            paths.deep_view().subrange(0, base.len() as int) == base,
            roots_distinct(base) ==> roots_distinct(paths.deep_view()),
            paths.deep_view().len() > 0 <==> (base.len() > 0 || exists|t: int|
                0 <= t < i && spec_token_candidates(#[trigger] tv[t]).len() > 0),
            crate::paths::path_wf(command_cwd@) && (forall|t: int|
                0 <= t < base.len() ==> crate::paths::path_wf(#[trigger] base[t])) ==> forall|
                t: int,
            |
                0 <= t < paths.deep_view().len() ==> crate::paths::path_wf(
                    #[trigger] paths.deep_view()[t],
                ),
        decreases tokens.len() - i,
    {
        let ghost pre = tv.subrange(0, i as int);
        let ghost post = tv.subrange(0, i as int + 1);
        proof {
            assert(post.drop_last() =~= pre);
            assert(post.last() == tv[i as int]);
            assert(tv[i as int] == tokens@[i as int]@);
        }
        let mut candidates: Vec<String> = Vec::new();
        add_token_path_candidates(tokens[i].as_str(), &mut candidates);
        let ghost cands = candidates.deep_view();
        proof {
            assert(cands =~= spec_token_candidates(tv[i as int]));
        }
        let mut j: usize = 0;
        while j < candidates.len()
            invariant
                j <= candidates.len(),
                i < tokens@.len(),
                tv == tokens.deep_view(),
                tv.len() == tokens@.len(),
                cands == spec_token_candidates(tv[i as int]),
                cands.len() == candidates@.len(),
                paths.deep_view().len() >= base.len(),
                paths.deep_view().len() <= base.len() + spec_total_candidates(
                    tv.subrange(0, i as int),
                ) + j,
                paths.deep_view().subrange(0, base.len() as int) == base,
                roots_distinct(base) ==> roots_distinct(paths.deep_view()),
                paths.deep_view().len() > 0 <==> (base.len() > 0 || (exists|t: int|
                    0 <= t < i && spec_token_candidates(#[trigger] tv[t]).len() > 0) || j > 0),
                crate::paths::path_wf(command_cwd@) && (forall|t: int|
                    0 <= t < base.len() ==> crate::paths::path_wf(#[trigger] base[t]))
                    ==> forall|t: int|
                    0 <= t < paths.deep_view().len() ==> crate::paths::path_wf(
                        #[trigger] paths.deep_view()[t],
                    ),
            decreases candidates.len() - j,
        {
            let path = normalize_runtime_token_path(candidates[j].as_str(), command_cwd);
            if !paths_contain(paths, &path) {
                let ghost dv = paths.deep_view();
                paths.push(path);
                proof {
                    assert(paths.deep_view() =~= dv.push(path@));
                    assert(paths.deep_view().subrange(0, base.len() as int) =~= dv.subrange(
                        0,
                        base.len() as int,
                    ));
                    if roots_distinct(dv) {
                        assert forall|a: int, b: int|
                            0 <= a < b < paths.deep_view().len() implies paths.deep_view()[a]
                            != paths.deep_view()[b] by {
                            if b == dv.len() {
                                assert(!dv.contains(path@));
                                assert(paths.deep_view()[a] == dv[a]);
                                if dv[a] == path@ {
                                    assert(dv.contains(path@));
                                }
                            }
                        }
                    }
                }
            } else {
                proof {
                    assert(paths.deep_view().len() > 0);
                }
            }
            j += 1;
        }
        proof {
            assert(spec_total_candidates(post) == spec_total_candidates(pre)
                + spec_token_candidates(tv[i as int]).len());
            if paths.deep_view().len() > 0 && base.len() == 0 {
                if !(exists|t: int|
                    0 <= t < i && spec_token_candidates(#[trigger] tv[t]).len() > 0) {
                    assert(spec_token_candidates(tv[i as int]).len() > 0);
                }
            }
        }
        i += 1;
    }
    proof {
        assert(tv.subrange(0, tokens@.len() as int) =~= tv);
    }
}

/// A known skill: its name, the path of its definition file, and the
/// capability profile its manifest compiled to, if it had one.
#[derive(Debug)]
pub struct SkillRecord {
    pub name: String,
    pub path: AbsPath,
    pub permission_profile: Option<CapabilityProfile>,
}

/// The mathematical value of a [`SkillRecord`].
pub struct SkillRecordV {
    pub name: Seq<char>,
    pub path: PathV,
    pub permission_profile: Option<CapabilityProfileV>,
}

impl View for SkillRecord {
    type V = SkillRecordV;

    open spec fn view(&self) -> SkillRecordV {
        SkillRecordV {
            name: self.name@,
            path: self.path@,
            permission_profile: match &self.permission_profile {
                Some(p) => Some(p@),
                None => None,
            },
        }
    }
}

/// Whether a skill can match at all: its definition path is not disabled
/// and its manifest compiled to a profile.
pub open spec fn skill_eligible(skill: SkillRecordV, disabled: Seq<PathV>) -> bool {
    !disabled.contains(skill.path) && skill.permission_profile is Some
}

/// A matched skill: its compiled profile and its normalized directory.
#[derive(Debug)]
pub struct MatchedSkillPermissionProfile {
    pub profile: CapabilityProfile,
    pub skill_dir: AbsPath,
}

/// Whether the command contributes any path candidate: through a literal
/// argv token, or — for a wrapped shell invocation — through a token of
/// one of its plain sub-commands.  The leading command prefix repeats the
/// first sub-command's tokens, so it adds no candidate of its own.
pub open spec fn spec_command_has_path_candidates(command: Seq<Seq<char>>) -> bool {
    ||| spec_tokens_have_candidates(command)
    ||| (crate::shell::is_shell_wrapped(command) && exists|g: int|
        0 <= g < crate::shell::spec_plain_sub_commands(command[2]).len()
            && spec_tokens_have_candidates(
            #[trigger] crate::shell::spec_plain_sub_commands(command[2])[g],
        ))
}

/// The path candidates a command contributes: from its literal argv, from
/// each plain sub-command of a wrapped shell script, and from the leading
/// command prefix.  The result holds no duplicates; it is non-empty
/// exactly when some token of the argv or of a sub-command parse yields a
/// candidate under [`spec_token_candidates`]; and, for a well-formed
/// working directory, every returned path is well-formed.  A token whose
/// resolution the filesystem cannot confirm still counts through its
/// lexical fallback: extraction is total and never errs.
pub fn collect_command_paths(command: &Vec<String>, command_cwd: &AbsPath) -> (paths: Vec<AbsPath>)
    ensures
        roots_distinct(paths.deep_view()),
        paths.deep_view().len() > 0 <==> spec_command_has_path_candidates(command.deep_view()),
        crate::paths::path_wf(command_cwd@) ==> forall|t: int|
            0 <= t < paths.deep_view().len() ==> crate::paths::path_wf(
                #[trigger] paths.deep_view()[t],
            ),
{
    let ghost cv = command.deep_view();
    let mut paths: Vec<AbsPath> = Vec::new();
    proof {
        assert(paths.deep_view() =~= Seq::<PathV>::empty());
    }
    collect_paths_from_tokens(command, command_cwd, &mut paths);
    match crate::shell::parse_shell_lc_plain_commands(command) {
        Some(commands) => {
            let ghost groups = crate::shell::spec_plain_sub_commands(cv[2]);
            proof {
                assert(commands.deep_view() == groups);
            }
            let mut i: usize = 0;
            while i < commands.len()
                invariant
                    i <= commands.len(),
                    cv == command.deep_view(),
                    groups == commands.deep_view(),
                    groups.len() == commands@.len(),
                    crate::shell::is_shell_wrapped(cv),
                    groups == crate::shell::spec_plain_sub_commands(cv[2]),
                    roots_distinct(paths.deep_view()),
                    paths.deep_view().len() > 0 <==> (spec_tokens_have_candidates(cv)
                        || exists|g: int|
                        0 <= g < i && spec_tokens_have_candidates(#[trigger] groups[g])),
                    crate::paths::path_wf(command_cwd@) ==> forall|t: int|
                        0 <= t < paths.deep_view().len() ==> crate::paths::path_wf(
                            #[trigger] paths.deep_view()[t],
                        ),
                decreases commands.len() - i,
            {
                proof {
                    assert(commands@[i as int].deep_view() == groups[i as int]);
                }
                collect_paths_from_tokens(&commands[i], command_cwd, &mut paths);
                i += 1;
            }
        },
        None => {
        },
    }
    match crate::shell::parse_shell_lc_single_command_prefix(command) {
        Some(prefix) => {
            let ghost groups = crate::shell::spec_plain_sub_commands(cv[2]);
            proof {
                assert(prefix.deep_view() == groups[0]);
            }
            collect_paths_from_tokens(&prefix, command_cwd, &mut paths);
        },
        None => {
        },
    }
    paths
}

/// One skill considered for a command: its compiled profile, its
/// normalized directory, and whether the command matched that directory
/// — by working directory or by a collected command path.
#[derive(Debug)]
pub struct SkillMatchCandidate {
    pub profile: CapabilityProfile,
    pub skill_dir: AbsPath,
    pub matched: bool,
}

/// The candidates a command is matched against: one per eligible skill
/// with a parent directory, carrying that skill's profile, the skill's
/// normalized directory, and the match verdict — true exactly when the
/// normalized working directory or some collected command path lies in
/// the candidate's directory.  Which directory a skill normalizes to
/// depends on the filesystem; the verdict is exact relative to it.
pub fn collect_skill_candidates(
    normalized_cwd: &AbsPath,
    command_paths: &Vec<AbsPath>,
    skills: &Vec<SkillRecord>,
    disabled_paths: &Vec<AbsPath>,
) -> (candidates: Vec<SkillMatchCandidate>)
    ensures
        forall|i: int|
            0 <= i < candidates@.len() ==> {
                &&& (#[trigger] candidates@[i]).matched == (is_path_prefix(
                    candidates@[i].skill_dir@,
                    normalized_cwd@,
                ) || exists|p: int|
                    0 <= p < command_paths.deep_view().len() && is_path_prefix(
                        candidates@[i].skill_dir@,
                        #[trigger] command_paths.deep_view()[p],
                    ))
                &&& exists|j: int|
                    0 <= j < skills@.len() && skill_eligible(
                        #[trigger] skills@[j]@,
                        disabled_paths.deep_view(),
                    ) && Some(candidates@[i].profile@) == skills@[j]@.permission_profile
            },
        (forall|j: int|
            0 <= j < skills@.len() ==> !skill_eligible(
                #[trigger] skills@[j]@,
                disabled_paths.deep_view(),
            )) ==> candidates@.len() == 0,
{
    let mut candidates: Vec<SkillMatchCandidate> = Vec::new();
    let mut k: usize = 0;
    while k < skills.len()
        invariant
            k <= skills@.len(),
            forall|i: int|
                0 <= i < candidates@.len() ==> {
                    &&& (#[trigger] candidates@[i]).matched == (is_path_prefix(
                        candidates@[i].skill_dir@,
                        normalized_cwd@,
                    ) || exists|p: int|
                        0 <= p < command_paths.deep_view().len() && is_path_prefix(
                            candidates@[i].skill_dir@,
                            #[trigger] command_paths.deep_view()[p],
                        ))
                    &&& exists|j: int|
                        0 <= j < skills@.len() && skill_eligible(
                            #[trigger] skills@[j]@,
                            disabled_paths.deep_view(),
                        ) && Some(candidates@[i].profile@) == skills@[j]@.permission_profile
                },
            (forall|j: int|
                0 <= j < skills@.len() ==> !skill_eligible(
                    #[trigger] skills@[j]@,
                    disabled_paths.deep_view(),
                )) ==> candidates@.len() == 0,
        decreases skills@.len() - k,
    {
        let skill = &skills[k];
        if !paths_contain(disabled_paths, &skill.path) {
            match &skill.permission_profile {
                Some(profile) => {
                    match skill.path.parent() {
                        Some(skill_dir) => {
                            let normalized_skill_dir = normalize_runtime_absolute_path(
                                &skill_dir,
                            );
                            let matches_cwd = normalized_cwd.starts_with(&normalized_skill_dir);
                            let mut matches_path = false;
                            let mut p: usize = 0;
                            while p < command_paths.len()
                                invariant
                                    p <= command_paths@.len(),
                                    command_paths.deep_view().len() == command_paths@.len(),
                                    matches_path == exists|t: int|
                                        0 <= t < p && is_path_prefix(
                                            normalized_skill_dir@,
                                            #[trigger] command_paths.deep_view()[t],
                                        ),
                                decreases command_paths@.len() - p,
                            {
                                if command_paths[p].starts_with(&normalized_skill_dir) {
                                    proof {
                                        assert(command_paths.deep_view()[p as int]
                                            == command_paths@[p as int]@);
                                    }
                                    matches_path = true;
                                }
                                proof {
                                    if matches_path && !(exists|t: int|
                                        0 <= t < p + 1 && is_path_prefix(
                                            normalized_skill_dir@,
                                            #[trigger] command_paths.deep_view()[t],
                                        )) {
                                        assert(false);
                                    }
                                }
                                p += 1;
                            }
                            let candidate = SkillMatchCandidate {
                                profile: profile.clone(),
                                skill_dir: normalized_skill_dir,
                                matched: matches_cwd || matches_path,
                            };
                            proof {
                                assert(skill_eligible(
                                    skills@[k as int]@,
                                    disabled_paths.deep_view(),
                                ));
                            }
                            candidates.push(candidate);
                        },
                        None => {
                        },
                    }
                },
                None => {
                },
            }
        }
        k += 1;
    }
    candidates
}

/// Selects the most specific matching candidate: among the candidates
/// whose directory matched, the one maximal by segment count with the
/// lexical path order as the tie-break; on equal directories the later
/// candidate wins.  No matching candidate gives `None`, exactly.
/// Replacing the running maximum with a later, at-least-as-specific
/// matching directory keeps it maximal over everything scanned.
proof fn lemma_select_replace(dirs: Seq<PathV>, flags: Seq<bool>, k: int, bi: int)
    requires
        dirs.len() == flags.len(),
        0 <= bi < k < dirs.len(),
        flags[k],
        crate::paths::spec_path_specificity(dirs[k], dirs[bi]) >= 0,
        forall|j: int|
            0 <= j < k && flags[j] ==> crate::paths::spec_path_specificity(
                #[trigger] dirs[j],
                dirs[bi],
            ) <= 0,
    ensures
        forall|j: int|
            0 <= j < k + 1 && flags[j] ==> crate::paths::spec_path_specificity(
                #[trigger] dirs[j],
                dirs[k],
            ) <= 0,
{
    crate::paths::lemma_path_specificity_antisymmetric(dirs[k], dirs[bi]);
    assert forall|j: int|
        0 <= j < k + 1 && flags[j] implies crate::paths::spec_path_specificity(
        #[trigger] dirs[j],
        dirs[k],
    ) <= 0 by {
        if j < k {
            crate::paths::lemma_path_specificity_transitive(dirs[j], dirs[bi], dirs[k]);
        } else {
            crate::paths::lemma_path_specificity_reflexive(dirs[k]);
        }
    }
}

/// The position of the most specific matching candidate: maximal by
/// segment count with the lexical path order as the tie-break; on equal
/// directories the later candidate wins.  `None` exactly when no
/// candidate matched.
#[verifier::spinoff_prover]
pub fn select_best_index(candidates: &Vec<SkillMatchCandidate>) -> (r: Option<usize>)
    ensures
        r is None <==> (forall|i: int|
            0 <= i < candidates@.len() ==> !(#[trigger] candidates@[i]).matched),
        r is Some ==> {
            let i = r->Some_0 as int;
            &&& 0 <= i < candidates@.len()
            &&& candidates@[i].matched
            &&& (forall|j: int|
                0 <= j < candidates@.len() && (#[trigger] candidates@[j]).matched
                    ==> crate::paths::spec_path_specificity(
                    candidates@[j].skill_dir@,
                    candidates@[i].skill_dir@,
                ) <= 0)
            &&& (forall|j: int|
                i < j < candidates@.len() && (#[trigger] candidates@[j]).matched
                    ==> crate::paths::spec_path_specificity(
                    candidates@[j].skill_dir@,
                    candidates@[i].skill_dir@,
                ) < 0)
        },
{
    let ghost dirs: Seq<PathV> = Seq::new(candidates@.len(), |i: int| candidates@[i].skill_dir@);
    let ghost flags: Seq<bool> = Seq::new(candidates@.len(), |i: int| candidates@[i].matched);
    let mut have_best = false;
    let mut best: usize = 0;
    let mut k: usize = 0;
    while k < candidates.len()
        invariant
            k <= candidates@.len(),
            dirs == Seq::new(candidates@.len(), |i: int| candidates@[i].skill_dir@),
            flags == Seq::new(candidates@.len(), |i: int| candidates@[i].matched),
            !have_best ==> forall|i: int| 0 <= i < k ==> !flags[i],
            have_best ==> {
                &&& best < k
                &&& flags[best as int]
                &&& (forall|j: int|
                    0 <= j < k && flags[j] ==> crate::paths::spec_path_specificity(
                        #[trigger] dirs[j],
                        dirs[best as int],
                    ) <= 0)
                &&& (forall|j: int|
                    best < j < k && flags[j] ==> crate::paths::spec_path_specificity(
                        #[trigger] dirs[j],
                        dirs[best as int],
                    ) < 0)
            },
        decreases candidates@.len() - k,
    {
        if candidates[k].matched {
            proof {
                assert(flags[k as int]);
            }
            if !have_best {
                proof {
                    crate::paths::lemma_path_specificity_reflexive(dirs[k as int]);
                }
                have_best = true;
                best = k;
            } else if compare_path_specificity(
                &candidates[k].skill_dir,
                &candidates[best].skill_dir,
            ) >= 0 {
                proof {
                    lemma_select_replace(dirs, flags, k as int, best as int);
                }
                best = k;
            } else {
                proof {
                    assert(crate::paths::spec_path_specificity(
                        dirs[k as int],
                        dirs[best as int],
                    ) < 0);
                }
            }
        } else {
            proof {
                assert(!flags[k as int]);
            }
        }
        k += 1;
    }
    proof {
        assert forall|i: int| 0 <= i < candidates@.len() implies flags[i] == (
        #[trigger] candidates@[i]).matched by {}
        assert forall|i: int| 0 <= i < candidates@.len() implies dirs[i] == (
        #[trigger] candidates@[i]).skill_dir@ by {}
    }
    if have_best {
        Some(best)
    } else {
        None
    }
}

/// Finds the most specific skill whose directory governs the command: a
/// skill matches when the command's working directory or any of its
/// path-like tokens lies in the skill's directory; among several matches
/// the deepest directory wins, ties broken by the lexical path order.
/// Disabled skills and skills without a compiled profile never match.
/// Which directories the skills normalize to depends on the filesystem;
/// [`collect_skill_candidates`] states the match verdicts relative to the
/// normalized directories, and [`select_best_index`] fixes the selection
/// exactly for every candidate list; the returned profile and directory
/// are the selected candidate's.
pub fn find_matching_skill_permission_profile(
    command: &Vec<String>,
    command_cwd: &AbsPath,
    skills: &Vec<SkillRecord>,
    disabled_paths: &Vec<AbsPath>,
) -> (r: Option<MatchedSkillPermissionProfile>)
    ensures
        r is Some ==> exists|i: int|
            0 <= i < skills@.len() && skill_eligible(
                #[trigger] skills@[i]@,
                disabled_paths.deep_view(),
            ) && Some(r->Some_0.profile@) == skills@[i]@.permission_profile,
        (forall|i: int|
            0 <= i < skills@.len() ==> !skill_eligible(
                #[trigger] skills@[i]@,
                disabled_paths.deep_view(),
            )) ==> r is None,
{
    let normalized_command_cwd = normalize_runtime_absolute_path(command_cwd);
    let command_paths = collect_command_paths(command, &normalized_command_cwd);
    let candidates = collect_skill_candidates(
        &normalized_command_cwd,
        &command_paths,
        skills,
        disabled_paths,
    );
    match select_best_index(&candidates) {
        Some(bi) => Some(
            MatchedSkillPermissionProfile {
                profile: candidates[bi].profile.clone(),
                skill_dir: candidates[bi].skill_dir.clone(),
            },
        ),
        None => None,
    }
}

} // verus!
