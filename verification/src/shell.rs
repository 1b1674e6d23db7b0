//! Re-parsing of wrapped shell invocations.
//!
//! A command is often a wrapped shell call — an interpreter, a `-c`/`-lc`
//! flag, and one script string.  To widen the match surface beyond the
//! literal argv, the matcher re-parses such a script as a sequence of
//! plain sub-commands split on command separators.  This is a heuristic
//! tokenization on whitespace, not a full shell grammar.

use vstd::prelude::*;

verus! {

/// What splitting a string on spaces yields, in order, keeping empty
/// pieces.
pub open spec fn spec_split_space(s: Seq<char>) -> Seq<Seq<char>>
    decreases s.len(),
{
    if s.len() == 0 {
        seq![Seq::<char>::empty()]
    } else if s.last() == ' ' {
        spec_split_space(s.drop_last()).push(Seq::<char>::empty())
    } else {
        let prev = spec_split_space(s.drop_last());
        prev.update(prev.len() - 1, prev.last().push(s.last()))
    }
}

/// Splitting yields at least one piece.
pub proof fn lemma_split_space_len(s: Seq<char>)
    ensures
        spec_split_space(s).len() >= 1,
    decreases s.len(),
{
    if s.len() > 0 {
        lemma_split_space_len(s.drop_last());
    }
}

/// The pieces with the empty ones dropped.
pub open spec fn spec_drop_empty(parts: Seq<Seq<char>>) -> Seq<Seq<char>>
    decreases parts.len(),
{
    if parts.len() == 0 {
        Seq::<Seq<char>>::empty()
    } else {
        let prev = spec_drop_empty(parts.drop_last());
        if parts.last().len() == 0 {
            prev
        } else {
            prev.push(parts.last())
        }
    }
}

/// The whitespace-separated words of a script string.
pub open spec fn spec_words(s: Seq<char>) -> Seq<Seq<char>> {
    spec_drop_empty(spec_split_space(s))
}

/// Splits a script string into its space-separated words.
pub fn script_words(s: &str) -> (words: Vec<String>)
    ensures
        words.deep_view() == spec_words(s@),
{
    let n = s.unicode_len();
    let mut pieces: Vec<String> = Vec::new();
    let mut start: usize = 0;
    let mut i: usize = 0;
    proof {
        assert(s@.subrange(0, 0) =~= Seq::<char>::empty());
        assert(pieces.deep_view() =~= Seq::<Seq<char>>::empty());
    }
    while i < n
        invariant
            i <= n,
            start <= i,
            n == s@.len(),
            pieces.deep_view() == spec_split_space(s@.subrange(0, i as int)).drop_last(),
            spec_split_space(s@.subrange(0, i as int)).last() == s@.subrange(
                start as int,
                i as int,
            ),
        decreases n - i,
    {
        let ghost pre = s@.subrange(0, i as int);
        let ghost post = s@.subrange(0, i as int + 1);
        proof {
            lemma_split_space_len(pre);
            assert(post.drop_last() =~= pre);
            assert(post.last() == s@[i as int]);
        }
        let c = s.get_char(i);
        if c == ' ' {
            let piece = s.substring_char(start, i).to_owned();
            let ghost dv = pieces.deep_view();
            pieces.push(piece);
            proof {
                assert(pieces.deep_view() =~= dv.push(piece@));
                assert(spec_split_space(post) == spec_split_space(pre).push(
                    Seq::<char>::empty(),
                ));
                assert(spec_split_space(post).drop_last() =~= spec_split_space(pre));
                assert(dv.push(piece@) =~= spec_split_space(pre));
                assert(s@.subrange(i as int + 1, i as int + 1) =~= Seq::<char>::empty());
            }
            start = i + 1;
        } else {
            proof {
                let prev = spec_split_space(pre);
                assert(spec_split_space(post) == prev.update(
                    prev.len() - 1,
                    prev.last().push(s@[i as int]),
                ));
                assert(spec_split_space(post).drop_last() =~= prev.drop_last());
                assert(s@.subrange(start as int, i as int + 1) =~= s@.subrange(
                    start as int,
                    i as int,
                ).push(s@[i as int]));
            }
        }
        i += 1;
    }
    proof {
        assert(s@.subrange(0, n as int) =~= s@);
        lemma_split_space_len(s@);
    }
    let piece = s.substring_char(start, n).to_owned();
    let ghost dv = pieces.deep_view();
    pieces.push(piece);
    proof {
        assert(pieces.deep_view() =~= dv.push(piece@));
        assert(dv.push(piece@) =~= spec_split_space(s@));
    }
    let mut words: Vec<String> = Vec::new();
    let mut k: usize = 0;
    proof {
        assert(pieces.deep_view().subrange(0, 0) =~= Seq::<Seq<char>>::empty());
        assert(words.deep_view() =~= Seq::<Seq<char>>::empty());
    }
    while k < pieces.len()
        invariant
            k <= pieces.len(),
            pieces.deep_view().len() == pieces@.len(),
            words.deep_view() == spec_drop_empty(pieces.deep_view().subrange(0, k as int)),
        decreases pieces.len() - k,
    {
        let ghost pre = pieces.deep_view().subrange(0, k as int);
        let ghost post = pieces.deep_view().subrange(0, k as int + 1);
        proof {
            assert(post.drop_last() =~= pre);
            assert(post.last() == pieces.deep_view()[k as int]);
            assert(pieces.deep_view()[k as int] == pieces@[k as int]@);
        }
        if pieces[k].as_str().unicode_len() > 0 {
            let ghost dv = words.deep_view();
            let w = pieces[k].clone();
            words.push(w);
            proof {
                assert(words.deep_view() =~= dv.push(pieces@[k as int]@));
            }
        }
        k += 1;
    }
    proof {
        assert(pieces.deep_view().subrange(0, pieces.deep_view().len() as int) =~= pieces
            .deep_view());
    }
    words
}

/// A word that separates two plain sub-commands: `&&`, `||`, `;` or `|`.
pub open spec fn is_separator_word(w: Seq<char>) -> bool {
    ||| w == seq!['&', '&']
    ||| w == seq!['|', '|']
    ||| w == seq![';']
    ||| w == seq!['|']
}

/// Whether a word separates two sub-commands.
pub fn separator_word(w: &str) -> (r: bool)
    ensures
        r == is_separator_word(w@),
{
    let n = w.unicode_len();
    if n == 1 {
        let c = w.get_char(0);
        let r = c == ';' || c == '|';
        proof {
            assert(w@ =~= seq![w@[0]]);
            if r {
                assert(is_separator_word(w@));
            } else {
                assert(w@ != seq![';'] && w@ != seq!['|']);
                assert(w@.len() != 2);
            }
        }
        r
    } else if n == 2 {
        let a = w.get_char(0);
        let b = w.get_char(1);
        let r = (a == '&' && b == '&') || (a == '|' && b == '|');
        proof {
            assert(w@ =~= seq![w@[0], w@[1]]);
            if !r {
                assert(w@ != seq!['&', '&'] && w@ != seq!['|', '|']);
                assert(w@.len() != 1);
            }
        }
        r
    } else {
        proof {
            assert(w@.len() != 1 && w@.len() != 2);
        }
        false
    }
}

/// The word groups between separators, empty groups dropped: the plain
/// sub-commands of a script.
pub open spec fn spec_split_groups(words: Seq<Seq<char>>) -> Seq<Seq<Seq<char>>>
    decreases words.len(),
{
    if words.len() == 0 {
        seq![Seq::<Seq<char>>::empty()]
    } else if is_separator_word(words.last()) {
        spec_split_groups(words.drop_last()).push(Seq::<Seq<char>>::empty())
    } else {
        let prev = spec_split_groups(words.drop_last());
        prev.update(prev.len() - 1, prev.last().push(words.last()))
    }
}

/// Group splitting yields at least one group.
pub proof fn lemma_split_groups_len(words: Seq<Seq<char>>)
    ensures
        spec_split_groups(words).len() >= 1,
    decreases words.len(),
{
    if words.len() > 0 {
        lemma_split_groups_len(words.drop_last());
    }
}

/// The groups with the empty ones dropped.
pub open spec fn spec_drop_empty_groups(groups: Seq<Seq<Seq<char>>>) -> Seq<Seq<Seq<char>>>
    decreases groups.len(),
{
    if groups.len() == 0 {
        Seq::<Seq<Seq<char>>>::empty()
    } else {
        let prev = spec_drop_empty_groups(groups.drop_last());
        if groups.last().len() == 0 {
            prev
        } else {
            prev.push(groups.last())
        }
    }
}

/// The plain sub-commands of a script string: its words, grouped between
/// separators, empty groups dropped.
pub open spec fn spec_plain_sub_commands(script: Seq<char>) -> Seq<Seq<Seq<char>>> {
    spec_drop_empty_groups(spec_split_groups(spec_words(script)))
}

/// Splits a word list into its non-empty groups between separators.
fn split_word_groups(words: &Vec<String>) -> (groups: Vec<Vec<String>>)
    ensures
        groups.deep_view() == spec_drop_empty_groups(spec_split_groups(words.deep_view())),
{
    let mut raw: Vec<Vec<String>> = Vec::new();
    let mut cur: Vec<String> = Vec::new();
    let mut i: usize = 0;
    proof {
        assert(words.deep_view().subrange(0, 0) =~= Seq::<Seq<char>>::empty());
        assert(raw.deep_view() =~= Seq::<Seq<Seq<char>>>::empty());
        assert(cur.deep_view() =~= Seq::<Seq<char>>::empty());
    }
    while i < words.len()
        invariant
            i <= words.len(),
            words.deep_view().len() == words@.len(),
            raw.deep_view() == spec_split_groups(
                words.deep_view().subrange(0, i as int),
            ).drop_last(),
            cur.deep_view() == spec_split_groups(words.deep_view().subrange(0, i as int)).last(),
        decreases words.len() - i,
    {
        let ghost pre = words.deep_view().subrange(0, i as int);
        let ghost post = words.deep_view().subrange(0, i as int + 1);
        proof {
            lemma_split_groups_len(pre);
            assert(post.drop_last() =~= pre);
            assert(post.last() == words.deep_view()[i as int]);
            assert(words.deep_view()[i as int] == words@[i as int]@);
        }
        if separator_word(words[i].as_str()) {
            let ghost rdv = raw.deep_view();
            let ghost cdv = cur.deep_view();
            let finished = cur;
            cur = Vec::new();
            raw.push(finished);
            proof {
                assert(raw.deep_view() =~= rdv.push(cdv));
                assert(spec_split_groups(post) == spec_split_groups(pre).push(
                    Seq::<Seq<char>>::empty(),
                ));
                assert(spec_split_groups(post).drop_last() =~= spec_split_groups(pre));
                assert(rdv.push(cdv) =~= spec_split_groups(pre));
                assert(cur.deep_view() =~= Seq::<Seq<char>>::empty());
            }
        } else {
            let ghost cdv = cur.deep_view();
            let w = words[i].clone();
            cur.push(w);
            proof {
                let prev = spec_split_groups(pre);
                assert(cur.deep_view() =~= cdv.push(words@[i as int]@));
                assert(spec_split_groups(post) == prev.update(
                    prev.len() - 1,
                    prev.last().push(words.deep_view()[i as int]),
                ));
                assert(spec_split_groups(post).drop_last() =~= prev.drop_last());
            }
        }
        i += 1;
    }
    proof {
        assert(words.deep_view().subrange(0, words.deep_view().len() as int) =~= words
            .deep_view());
        lemma_split_groups_len(words.deep_view());
    }
    let ghost rdv = raw.deep_view();
    let ghost cdv = cur.deep_view();
    raw.push(cur);
    proof {
        assert(raw.deep_view() =~= rdv.push(cdv));
        assert(rdv.push(cdv) =~= spec_split_groups(words.deep_view()));
    }
    let mut groups: Vec<Vec<String>> = Vec::new();
    let mut k: usize = 0;
    proof {
        assert(raw.deep_view().subrange(0, 0) =~= Seq::<Seq<Seq<char>>>::empty());
        assert(groups.deep_view() =~= Seq::<Seq<Seq<char>>>::empty());
    }
    while k < raw.len()
        invariant
            k <= raw.len(),
            raw.deep_view().len() == raw@.len(),
            groups.deep_view() == spec_drop_empty_groups(raw.deep_view().subrange(0, k as int)),
        decreases raw.len() - k,
    {
        let ghost pre = raw.deep_view().subrange(0, k as int);
        let ghost post = raw.deep_view().subrange(0, k as int + 1);
        proof {
            assert(post.drop_last() =~= pre);
            assert(post.last() == raw.deep_view()[k as int]);
            assert(raw.deep_view()[k as int] == raw@[k as int].deep_view());
        }
        if raw[k].len() > 0 {
            let ghost gdv = groups.deep_view();
            let g = crate::paths::clone_string_vec(&raw[k]);
            groups.push(g);
            proof {
                assert(raw@[k as int].deep_view().len() == raw@[k as int]@.len());
                assert(groups.deep_view() =~= gdv.push(raw@[k as int].deep_view()));
            }
        } else {
            proof {
                assert(raw@[k as int].deep_view().len() == raw@[k as int]@.len());
            }
        }
        k += 1;
    }
    proof {
        assert(raw.deep_view().subrange(0, raw.deep_view().len() as int) =~= raw.deep_view());
    }
    groups
}

/// Whether an argv is a wrapped shell invocation: an interpreter, a
/// `-c` or `-lc` flag, and a single script string.
pub open spec fn is_shell_wrapped(command: Seq<Seq<char>>) -> bool {
    command.len() == 3 && (command[1] == seq!['-', 'c'] || command[1] == seq!['-', 'l', 'c'])
}

fn flag_is_shell_c(w: &str) -> (r: bool)
    ensures
        r == (w@ == seq!['-', 'c'] || w@ == seq!['-', 'l', 'c']),
{
    let n = w.unicode_len();
    if n == 2 {
        let r = w.get_char(0) == '-' && w.get_char(1) == 'c';
        proof {
            assert(w@ =~= seq![w@[0], w@[1]]);
            if !r {
                assert(w@ != seq!['-', 'c']);
            }
            assert(w@.len() != 3);
        }
        r
    } else if n == 3 {
        let r = w.get_char(0) == '-' && w.get_char(1) == 'l' && w.get_char(2) == 'c';
        proof {
            assert(w@ =~= seq![w@[0], w@[1], w@[2]]);
            if !r {
                assert(w@ != seq!['-', 'l', 'c']);
            }
            assert(w@.len() != 2);
        }
        r
    } else {
        proof {
            assert(w@.len() != 2 && w@.len() != 3);
        }
        false
    }
}

/// Re-parses a wrapped shell invocation as its plain sub-commands, split
/// on the command separators `&&`, `||`, `;` and `|`.  An argv that is
/// not a wrapped shell invocation yields nothing.
pub fn parse_shell_lc_plain_commands(command: &Vec<String>) -> (r: Option<Vec<Vec<String>>>)
    ensures
        r is Some <==> is_shell_wrapped(command.deep_view()),
        r is Some ==> r->Some_0.deep_view() == spec_plain_sub_commands(command.deep_view()[2]),
{
    proof {
        assert(forall|i: int|
            0 <= i < command@.len() ==> command.deep_view()[i] == command@[i]@);
    }
    if command.len() != 3 {
        return None;
    }
    if !flag_is_shell_c(command[1].as_str()) {
        return None;
    }
    let words = script_words(command[2].as_str());
    Some(split_word_groups(&words))
}

/// The single leading plain sub-command of a wrapped shell invocation:
/// its first group of words, when it has one.
pub fn parse_shell_lc_single_command_prefix(command: &Vec<String>) -> (r: Option<Vec<String>>)
    ensures
        r is Some ==> is_shell_wrapped(command.deep_view()),
        r is Some ==> spec_plain_sub_commands(command.deep_view()[2]).len() > 0
            && r->Some_0.deep_view() == spec_plain_sub_commands(command.deep_view()[2])[0],
{
    let groups = match parse_shell_lc_plain_commands(command) {
        Some(g) => g,
        None => {
            return None;
        },
    };
    if groups.len() == 0 {
        return None;
    }
    let first = crate::paths::clone_string_vec(&groups[0]);
    proof {
        assert(groups.deep_view()[0] == groups@[0].deep_view());
    }
    Some(first)
}

} // verus!
