//! Plain-text renderers over store records.

use crate::notes::ConversationRecord;
use crate::notes::MessageRecord;
use crate::notes::NoteRecord;
use crate::notes::NotesError;
use crate::notes::NotesStore;
use crate::notes::SnapshotRecord;
use crate::strings::spec_dec_digits;
use crate::strings::u64_to_string;
use vstd::prelude::*;

verus! {

/// The decimal rendering of a signed number: a minus sign before the
/// digits of its magnitude.
pub open spec fn spec_i64_digits(n: int) -> Seq<char> {
    if n >= 0 {
        spec_dec_digits(n)
    } else {
        seq!['-'] + spec_dec_digits(-n)
    }
}

/// Renders a signed number in decimal.
pub fn render_i64(n: i64) -> (r: String)
    ensures
        r@ == spec_i64_digits(n as int),
{
    if n >= 0 {
        u64_to_string(n as u64)
    } else {
        let magnitude: u64 = ((-(n + 1)) as u64) + 1;
        proof {
            assert(magnitude as int == -(n as int));
        }
        let mut out = String::from_str("-");
        out.append(u64_to_string(magnitude).as_str());
        proof {
            reveal_strlit("-");
            assert("-"@ =~= seq!['-']);
        }
        out
    }
}

/// The lines joined with one newline between each pair.
pub open spec fn spec_join_nl(lines: Seq<Seq<char>>) -> Seq<char>
    decreases lines.len(),
{
    if lines.len() == 0 {
        Seq::<char>::empty()
    } else if lines.len() == 1 {
        lines[0]
    } else {
        spec_join_nl(lines.drop_last()) + seq!['\n'] + lines.last()
    }
}

/// Joins lines with newlines; see [`spec_join_nl`].
pub fn join_lines(lines: &Vec<String>) -> (r: String)
    ensures
        r@ == spec_join_nl(lines.deep_view()),
{
    let mut out = String::new();
    let mut i: usize = 0;
    proof {
        assert(lines.deep_view().subrange(0, 0) =~= Seq::<Seq<char>>::empty());
    }
    while i < lines.len()
        invariant
            i <= lines@.len(),
            lines.deep_view().len() == lines@.len(),
            out@ == spec_join_nl(lines.deep_view().subrange(0, i as int)),
        decreases lines@.len() - i,
    {
        let ghost pre = lines.deep_view().subrange(0, i as int);
        let ghost post = lines.deep_view().subrange(0, i as int + 1);
        proof {
            assert(post.drop_last() =~= pre);
            assert(post.last() == lines.deep_view()[i as int]);
            assert(lines.deep_view()[i as int] == lines@[i as int]@);
        }
        if i > 0 {
            crate::strings::push_char(&mut out, '\n');
        } else {
            proof {
                assert(pre.len() == 0);
                assert(post.len() == 1);
                assert(spec_join_nl(post) == post[0]);
            }
        }
        out.append(lines[i].as_str());
        i += 1;
    }
    proof {
        assert(lines.deep_view().subrange(0, lines.deep_view().len() as int) =~= lines
            .deep_view());
    }
    out
}

/// The bullet lines for a list of items: one `- ` line per item, or a
/// single `- (none)` line for an empty list.
pub open spec fn spec_dash_lines(items: Seq<Seq<char>>) -> Seq<Seq<char>> {
    if items.len() == 0 {
        seq!["- (none)"@]
    } else {
        items.map_values(|t: Seq<char>| "- "@ + t)
    }
}

/// Renders a list of items as bullet lines; see [`spec_dash_lines`].
pub fn dash_lines(items: &Vec<String>) -> (r: Vec<String>)
    ensures
        r.deep_view() == spec_dash_lines(items.deep_view()),
{
    let mut out: Vec<String> = Vec::new();
    if items.len() == 0 {
        out.push(String::from_str("- (none)"));
        proof {
            assert(out.deep_view() =~= seq!["- (none)"@]);
        }
        return out;
    }
    let mut i: usize = 0;
    proof {
        assert(out.deep_view() =~= lines_prefix(items.deep_view(), 0));
    }
    while i < items.len()
        invariant
            i <= items@.len(),
            items@.len() > 0,
            items.deep_view().len() == items@.len(),
            out.deep_view() == lines_prefix(items.deep_view(), i as int),
        decreases items@.len() - i,
    {
        let line = String::from_str("- ").concat(items[i].as_str());
        let ghost dv = out.deep_view();
        out.push(line);
        proof {
            assert(out.deep_view() =~= dv.push("- "@ + items@[i as int]@));
            assert(items.deep_view()[i as int] == items@[i as int]@);
            assert(out.deep_view() =~= lines_prefix(items.deep_view(), i as int + 1));
        }
        i += 1;
    }
    proof {
        assert(lines_prefix(items.deep_view(), items.deep_view().len() as int) =~= items
            .deep_view().map_values(|t: Seq<char>| "- "@ + t));
    }
    out
}

/// The first `k` bullet lines of a list.
pub open spec fn lines_prefix(items: Seq<Seq<char>>, k: int) -> Seq<Seq<char>> {
    items.subrange(0, k).map_values(|t: Seq<char>| "- "@ + t)
}

/// The resume-context lines of one snapshot within its conversation.
pub open spec fn spec_resume_lines(
    snapshot: SnapshotRecord,
    conversation: ConversationRecord,
) -> Seq<Seq<char>> {
    seq![
        "Snapshot: "@ + snapshot.id@,
        "Conversation: "@ + conversation.id@ + " ("@ + conversation.title@ + ")"@,
        "Created At: "@ + spec_i64_digits(snapshot.created_at as int),
        Seq::<char>::empty(),
        "Summary:"@,
        snapshot.summary@,
        Seq::<char>::empty(),
        "TODO:"@,
    ] + spec_dash_lines(snapshot.todo.deep_view()) + seq![Seq::<char>::empty(), "Risks:"@]
        + spec_dash_lines(snapshot.risks.deep_view()) + seq![
        Seq::<char>::empty(),
        "Repo Context:"@,
    ] + (match snapshot.repo_ctx {
        Some(ctx) => seq![
            "- repo_path: "@ + ctx.repo_path@,
            "- git_branch: "@ + (match ctx.git_branch {
                Some(b) => b@,
                None => "(unknown)"@,
            }),
            "- git_commit: "@ + (match ctx.git_commit {
                Some(c) => c@,
                None => "(unknown)"@,
            }),
        ],
        None => seq!["- (missing)"@],
    })
}

fn extend_lines(dst: &mut Vec<String>, src: Vec<String>)
    ensures
        final(dst).deep_view() == old(dst).deep_view() + src.deep_view(),
{
    let ghost base = dst.deep_view();
    let ghost sv = src.deep_view();
    let mut rest = src;
    let mut i: usize = 0;
    while i < rest.len()
        invariant
            i <= rest@.len(),
            sv == rest.deep_view(),
            sv.len() == rest@.len(),
            dst.deep_view() == base + sv.subrange(0, i as int),
        decreases rest@.len() - i,
    {
        let ghost dv = dst.deep_view();
        let line = rest[i].clone();
        dst.push(line);
        proof {
            assert(dst.deep_view() =~= dv.push(sv[i as int]));
            assert(dv.push(sv[i as int]) =~= base + sv.subrange(0, i as int + 1));
        }
        i += 1;
    }
    proof {
        assert(sv.subrange(0, sv.len() as int) =~= sv);
    }
}

/// Renders the resume-context text of a snapshot: its identifier, the
/// owning conversation, the summary, the outstanding work and risks, and
/// the captured repository context; see [`spec_resume_lines`].  A
/// snapshot whose conversation is missing is refused.
pub fn render_resume_text(store: &NotesStore, snapshot: &SnapshotRecord) -> (r: Result<
    String,
    NotesError,
>)
    ensures
        r is Ok <==> exists|j: int|
            0 <= j < store.conversations@.len() && (#[trigger] store.conversations@[j]).id@
                == snapshot.conversation_id@,
        r is Err ==> r->Err_0 == NotesError::ConversationNotFound,
        r is Ok ==> exists|j: int|
            0 <= j < store.conversations@.len() && (#[trigger] store.conversations@[j]).id@
                == snapshot.conversation_id@ && r->Ok_0@ == spec_join_nl(
                spec_resume_lines(*snapshot, store.conversations@[j]),
            ),
{
    let conversation = match store.load_conversation(snapshot.conversation_id.as_str()) {
        Ok(c) => c,
        Err(e) => {
            return Err(e);
        },
    };
    let mut lines: Vec<String> = Vec::new();
    lines.push(String::from_str("Snapshot: ").concat(snapshot.id.as_str()));
    lines.push(
        String::from_str("Conversation: ").concat(conversation.id.as_str()).concat(
            " (",
        ).concat(conversation.title.as_str()).concat(")"),
    );
    lines.push(String::from_str("Created At: ").concat(render_i64(snapshot.created_at).as_str()));
    lines.push(String::new());
    lines.push(String::from_str("Summary:"));
    lines.push(snapshot.summary.clone());
    lines.push(String::new());
    lines.push(String::from_str("TODO:"));
    let ghost head = lines.deep_view();
    proof {
        assert(head =~= seq![
            "Snapshot: "@ + snapshot.id@,
            "Conversation: "@ + conversation.id@ + " ("@ + conversation.title@ + ")"@,
            "Created At: "@ + spec_i64_digits(snapshot.created_at as int),
            Seq::<char>::empty(),
            "Summary:"@,
            snapshot.summary@,
            Seq::<char>::empty(),
            "TODO:"@,
        ]);
    }
    extend_lines(&mut lines, dash_lines(&snapshot.todo));
    let ghost after_todo = lines.deep_view();
    proof {
        assert(after_todo =~= head + spec_dash_lines(snapshot.todo.deep_view()));
    }
    lines.push(String::new());
    lines.push(String::from_str("Risks:"));
    let ghost before_risks = lines.deep_view();
    proof {
        assert(before_risks =~= after_todo + seq![Seq::<char>::empty(), "Risks:"@]);
    }
    extend_lines(&mut lines, dash_lines(&snapshot.risks));
    let ghost after_risks = lines.deep_view();
    proof {
        assert(after_risks =~= before_risks + spec_dash_lines(snapshot.risks.deep_view()));
    }
    lines.push(String::new());
    lines.push(String::from_str("Repo Context:"));
    let ghost before_repo = lines.deep_view();
    proof {
        assert(before_repo =~= after_risks + seq![Seq::<char>::empty(), "Repo Context:"@]);
    }
    match &snapshot.repo_ctx {
        Some(ctx) => {
            lines.push(String::from_str("- repo_path: ").concat(ctx.repo_path.as_str()));
            let branch_line = match &ctx.git_branch {
                Some(b) => String::from_str("- git_branch: ").concat(b.as_str()),
                None => String::from_str("- git_branch: ").concat("(unknown)"),
            };
            lines.push(branch_line);
            let commit_line = match &ctx.git_commit {
                Some(c) => String::from_str("- git_commit: ").concat(c.as_str()),
                None => String::from_str("- git_commit: ").concat("(unknown)"),
            };
            lines.push(commit_line);
        },
        None => {
            lines.push(String::from_str("- (missing)"));
        },
    }
    proof {
        let tail: Seq<Seq<char>> = match &snapshot.repo_ctx {
            Some(ctx) => seq![
                "- repo_path: "@ + ctx.repo_path@,
                "- git_branch: "@ + (match &ctx.git_branch {
                    Some(b) => b@,
                    None => "(unknown)"@,
                }),
                "- git_commit: "@ + (match &ctx.git_commit {
                    Some(c) => c@,
                    None => "(unknown)"@,
                }),
            ],
            None => seq!["- (missing)"@],
        };
        assert(lines.deep_view() =~= before_repo + tail);
        assert(before_repo + tail =~= spec_resume_lines(*snapshot, conversation));
        let j = choose|j: int|
            0 <= j < store.conversations@.len() && #[trigger] store.conversations@[j]
                == conversation;
        assert(store.conversations@[j] == conversation);
    }
    Ok(join_lines(&lines))
}

/// Builds the automatic snapshot summary for a conversation: a
/// `Latest messages: ` block of at most the three newest matching
/// messages, each shown as role, colon and content shortened to sixty
/// characters; a `Latest notes: ` block of at most the three newest
/// matching note titles; or — when the conversation has neither — a
/// fixed baseline sentence, exactly.  The text is never empty.
#[verifier::spinoff_prover]
#[verifier::rlimit(100)]
pub fn build_latest_summary(store: &NotesStore, conversation_id: &str) -> (r: String)
    ensures
        r@.len() > 0,
        ((forall|t: int|
            0 <= t < store.messages@.len() ==> (#[trigger] store.messages@[t]).conversation_id@
                != conversation_id@) && (forall|t: int|
            0 <= t < store.notes@.len() ==> (#[trigger] store.notes@[t]).conversation_id@
                != conversation_id@)) ==> r@
            == "No recent messages or notes. Snapshot created as a baseline."@,
        (exists|t: int|
            0 <= t < store.messages@.len() && (#[trigger] store.messages@[t]).conversation_id@
                == conversation_id@) ==> crate::paths::is_seq_prefix("Latest messages: "@, r@),
        ((forall|t: int|
            0 <= t < store.messages@.len() ==> (#[trigger] store.messages@[t]).conversation_id@
                != conversation_id@) && (exists|t: int|
            0 <= t < store.notes@.len() && (#[trigger] store.notes@[t]).conversation_id@
                == conversation_id@)) ==> crate::paths::is_seq_prefix("Latest notes: "@, r@),
        ((exists|t: int|
            0 <= t < store.messages@.len() && (#[trigger] store.messages@[t]).conversation_id@
                == conversation_id@) || (exists|t: int|
            0 <= t < store.notes@.len() && (#[trigger] store.notes@[t]).conversation_id@
                == conversation_id@)) ==> exists|msel: Seq<MessageRecord>, nsel: Seq<NoteRecord>|
            {
                &&& msel.len() <= 3
                &&& nsel.len() <= 3
                &&& (msel.len() > 0 <==> exists|t: int|
                    0 <= t < store.messages@.len() && (
                    #[trigger] store.messages@[t]).conversation_id@ == conversation_id@)
                &&& (nsel.len() > 0 <==> exists|t: int|
                    0 <= t < store.notes@.len() && (#[trigger] store.notes@[t]).conversation_id@
                        == conversation_id@)
                &&& (forall|t: int|
                    0 <= t < msel.len() ==> (#[trigger] msel[t]).conversation_id@
                        == conversation_id@ && store.messages@.contains(msel[t]))
                &&& (forall|a: int, b: int|
                    0 <= a < b < msel.len() ==> msel[a].created_at >= msel[b].created_at)
                &&& (forall|m: MessageRecord|
                    #[trigger] store.messages@.contains(m) && m.conversation_id@
                        == conversation_id@ ==> (msel.contains(m) || (msel.len() == 3
                        && m.created_at <= msel[2].created_at)))
                &&& (forall|t: int|
                    0 <= t < nsel.len() ==> (#[trigger] nsel[t]).conversation_id@
                        == conversation_id@ && crate::notes::note_matched_in(
                        nsel[t],
                        store.notes@,
                    ))
                &&& (forall|a: int, b: int|
                    0 <= a < b < nsel.len() ==> nsel[a].updated_at >= nsel[b].updated_at)
                &&& (forall|n: NoteRecord|
                    #[trigger] store.notes@.contains(n) && n.conversation_id@
                        == conversation_id@ ==> ((exists|t: int|
                        0 <= t < nsel.len() && crate::notes::note_matches(#[trigger] nsel[t], n))
                        || (nsel.len() == 3 && n.updated_at <= nsel[2].updated_at)))
                &&& r@ == spec_join_nl(
                    (if msel.len() > 0 {
                        seq!["Latest messages: "@ + spec_join_bars(
                            msel.map_values(|m: MessageRecord| spec_message_line(m)),
                        )]
                    } else {
                        Seq::<Seq<char>>::empty()
                    }) + (if nsel.len() > 0 {
                        seq!["Latest notes: "@ + spec_join_bars(
                            nsel.map_values(|n: NoteRecord| n.title@),
                        )]
                    } else {
                        Seq::<Seq<char>>::empty()
                    }),
                )
            },
{
    broadcast use vstd::seq_lib::group_to_multiset_ensures;

    let messages = store.list_messages();
    let notes = store.list_notes();
    let mut chunks: Vec<String> = Vec::new();

    let ghost mut msel: Seq<MessageRecord> = Seq::empty();
    let mut message_parts: Vec<String> = Vec::new();
    let mut i: usize = 0;
    proof {
        assert(message_parts.deep_view() =~= msel.map_values(
            |m: MessageRecord| spec_message_line(m),
        ));
    }
    while i < messages.len() && message_parts.len() < 3
        invariant
            i <= messages@.len(),
            messages@.to_multiset() == store.messages@.to_multiset(),
            forall|a: int, b: int|
                0 <= a < b < messages@.len() ==> messages@[a].created_at
                    >= messages@[b].created_at,
            msel.len() == message_parts@.len() <= 3,
            message_parts.deep_view() == msel.map_values(
                |m: MessageRecord| spec_message_line(m),
            ),
            forall|t: int|
                0 <= t < msel.len() ==> (#[trigger] msel[t]).conversation_id@
                    == conversation_id@ && store.messages@.contains(msel[t]),
            forall|a: int, b: int|
                0 <= a < b < msel.len() ==> msel[a].created_at >= msel[b].created_at,
            msel.len() > 0 ==> exists|li: int|
                0 <= li < i && messages@[li] == msel[msel.len() - 1],
            forall|t: int|
                0 <= t < i && (#[trigger] messages@[t]).conversation_id@ == conversation_id@
                    ==> (msel.contains(messages@[t]) || (msel.len() == 3
                    && messages@[t].created_at <= msel[2].created_at)),
            message_parts@.len() == 0 ==> forall|t: int|
                0 <= t < i ==> (#[trigger] messages@[t]).conversation_id@ != conversation_id@,
        decreases messages@.len() - i,
    {
        if crate::strings::str_eq(messages[i].conversation_id.as_str(), conversation_id) {
            proof {
                messages@.to_multiset_ensures();
                store.messages@.to_multiset_ensures();
                assert(messages@.contains(messages@[i as int]));
                assert(messages@.to_multiset().count(messages@[i as int]) > 0);
                assert(store.messages@.to_multiset().count(messages@[i as int]) > 0);
                assert(store.messages@.contains(messages@[i as int]));
            }
            let snippet = crate::notes::trim_for_table(messages[i].content.as_str(), 60);
            let part = messages[i].role.clone().concat(":").concat(snippet.as_str());
            proof {
                assert(part@ == spec_message_line(messages@[i as int]));
            }
            let ghost pdv = message_parts.deep_view();
            message_parts.push(part);
            proof {
                let ghost old_msel = msel;
                msel = msel.push(messages@[i as int]);
                assert(message_parts.deep_view() =~= pdv.push(part@));
                assert(message_parts.deep_view() =~= msel.map_values(
                    |m: MessageRecord| spec_message_line(m),
                ));
                assert(msel[msel.len() - 1] == messages@[i as int]);
                if old_msel.len() > 0 {
                    let li = choose|li: int|
                        0 <= li < i && messages@[li] == old_msel[old_msel.len() - 1];
                    assert(messages@[i as int].created_at <= messages@[li].created_at);
                }
                assert forall|t: int| 0 <= t < msel.len() implies (
                #[trigger] msel[t]).conversation_id@ == conversation_id@
                    && store.messages@.contains(msel[t]) by {
                    if t < old_msel.len() {
                        assert(msel[t] == old_msel[t]);
                    }
                }
                assert forall|t: int|
                    0 <= t < i + 1 && (#[trigger] messages@[t]).conversation_id@
                        == conversation_id@ implies msel.contains(messages@[t]) by {
                    if t < i {
                        assert(old_msel.contains(messages@[t]));
                        let w = choose|w: int|
                            0 <= w < old_msel.len() && old_msel[w] == messages@[t];
                        assert(msel[w] == messages@[t]);
                    } else {
                        assert(msel[msel.len() - 1] == messages@[t]);
                    }
                }
            }
        }
        i += 1;
    }
    proof {
        if message_parts@.len() == 0 && i == messages@.len() {
            assert forall|t: int| 0 <= t < store.messages@.len() implies (
            #[trigger] store.messages@[t]).conversation_id@ != conversation_id@ by {
                messages@.to_multiset_ensures();
                store.messages@.to_multiset_ensures();
                assert(store.messages@.contains(store.messages@[t]));
                assert(store.messages@.to_multiset().count(store.messages@[t]) > 0);
                assert(messages@.to_multiset().count(store.messages@[t]) > 0);
                assert(messages@.contains(store.messages@[t]));
                let u = choose|u: int|
                    0 <= u < messages@.len() && messages@[u] == store.messages@[t];
                assert(messages@[u].conversation_id@ != conversation_id@);
            }
        }
        assert forall|m: MessageRecord|
            #[trigger] store.messages@.contains(m) && m.conversation_id@ == conversation_id@
                implies (msel.contains(m) || (msel.len() == 3 && m.created_at
                <= msel[2].created_at)) by {
            messages@.to_multiset_ensures();
            store.messages@.to_multiset_ensures();
            assert(store.messages@.to_multiset().count(m) > 0);
            assert(messages@.to_multiset().count(m) > 0);
            assert(messages@.contains(m));
            let u = choose|u: int| 0 <= u < messages@.len() && messages@[u] == m;
            if u < i {
            } else {
                assert(msel.len() == 3);
                let li = choose|li: int|
                    0 <= li < i && messages@[li] == msel[msel.len() - 1];
                assert(messages@[u].created_at <= messages@[li].created_at);
            }
        }
    }
    if message_parts.len() > 0 {
        let block = join_with_bars(&message_parts);
        let chunk = String::from_str("Latest messages: ").concat(block.as_str());
        proof {
            assert(chunk@ == "Latest messages: "@ + spec_join_bars(
                msel.map_values(|m: MessageRecord| spec_message_line(m)),
            ));
        }
        chunks.push(chunk);
    }
    let ghost chunks_after_messages = chunks.deep_view();

    let ghost mut nsel: Seq<NoteRecord> = Seq::empty();
    let mut note_parts: Vec<String> = Vec::new();
    let mut j: usize = 0;
    proof {
        assert(note_parts.deep_view() =~= nsel.map_values(|n: NoteRecord| n.title@));
    }
    while j < notes.len() && note_parts.len() < 3
        invariant
            j <= notes@.len(),
            notes@.len() == store.notes@.len(),
            crate::notes::notes_all_match(notes@, store.notes@),
            crate::notes::notes_all_match(store.notes@, notes@),
            forall|a: int, b: int|
                0 <= a < b < notes@.len() ==> notes@[a].updated_at >= notes@[b].updated_at,
            nsel.len() == note_parts@.len() <= 3,
            note_parts.deep_view() == nsel.map_values(|n: NoteRecord| n.title@),
            forall|t: int|
                0 <= t < nsel.len() ==> (#[trigger] nsel[t]).conversation_id@
                    == conversation_id@ && crate::notes::note_matched_in(nsel[t], store.notes@),
            forall|a: int, b: int|
                0 <= a < b < nsel.len() ==> nsel[a].updated_at >= nsel[b].updated_at,
            nsel.len() > 0 ==> exists|li: int| 0 <= li < j && notes@[li] == nsel[nsel.len() - 1],
            forall|t: int|
                0 <= t < j && (#[trigger] notes@[t]).conversation_id@ == conversation_id@ ==> (
                nsel.contains(notes@[t]) || (nsel.len() == 3 && notes@[t].updated_at
                    <= nsel[2].updated_at)),
            note_parts@.len() == 0 ==> forall|t: int|
                0 <= t < j ==> (#[trigger] notes@[t]).conversation_id@ != conversation_id@,
        decreases notes@.len() - j,
    {
        if crate::strings::str_eq(notes[j].conversation_id.as_str(), conversation_id) {
            proof {
                assert(crate::notes::note_matched_in(notes@[j as int], store.notes@));
            }
            let ghost pdv = note_parts.deep_view();
            note_parts.push(notes[j].title.clone());
            proof {
                let ghost old_nsel = nsel;
                nsel = nsel.push(notes@[j as int]);
                assert(note_parts.deep_view() =~= pdv.push(notes@[j as int].title@));
                assert(note_parts.deep_view() =~= nsel.map_values(|n: NoteRecord| n.title@));
                assert(nsel[nsel.len() - 1] == notes@[j as int]);
                if old_nsel.len() > 0 {
                    let li = choose|li: int|
                        0 <= li < j && notes@[li] == old_nsel[old_nsel.len() - 1];
                    assert(notes@[j as int].updated_at <= notes@[li].updated_at);
                }
                assert forall|t: int| 0 <= t < nsel.len() implies (
                #[trigger] nsel[t]).conversation_id@ == conversation_id@
                    && crate::notes::note_matched_in(nsel[t], store.notes@) by {
                    if t < old_nsel.len() {
                        assert(nsel[t] == old_nsel[t]);
                    }
                }
                assert forall|t: int|
                    0 <= t < j + 1 && (#[trigger] notes@[t]).conversation_id@
                        == conversation_id@ implies nsel.contains(notes@[t]) by {
                    if t < j {
                        assert(old_nsel.contains(notes@[t]));
                        let w = choose|w: int|
                            0 <= w < old_nsel.len() && old_nsel[w] == notes@[t];
                        assert(nsel[w] == notes@[t]);
                    } else {
                        assert(nsel[nsel.len() - 1] == notes@[t]);
                    }
                }
            }
        }
        j += 1;
    }
    proof {
        if note_parts@.len() == 0 && j == notes@.len() {
            assert forall|t: int| 0 <= t < store.notes@.len() implies (
            #[trigger] store.notes@[t]).conversation_id@ != conversation_id@ by {
                assert(crate::notes::note_matched_in(store.notes@[t], notes@));
                let u = choose|u: int|
                    0 <= u < notes@.len() && crate::notes::note_matches(
                        store.notes@[t],
                        #[trigger] notes@[u],
                    );
                assert(notes@[u].conversation_id@ != conversation_id@);
            }
        }
        assert forall|n: NoteRecord|
            #[trigger] store.notes@.contains(n) && n.conversation_id@ == conversation_id@
                implies ((exists|t: int|
                0 <= t < nsel.len() && crate::notes::note_matches(#[trigger] nsel[t], n)) || (
            nsel.len() == 3 && n.updated_at <= nsel[2].updated_at)) by {
            let w = choose|w: int| 0 <= w < store.notes@.len() && store.notes@[w] == n;
            assert(crate::notes::note_matched_in(store.notes@[w], notes@));
            let u = choose|u: int|
                0 <= u < notes@.len() && crate::notes::note_matches(
                    store.notes@[w],
                    #[trigger] notes@[u],
                );
            if u < j {
                if nsel.contains(notes@[u]) {
                    let t = choose|t: int| 0 <= t < nsel.len() && nsel[t] == notes@[u];
                    assert(crate::notes::note_matches(nsel[t], n));
                }
            } else {
                assert(nsel.len() == 3);
                let li = choose|li: int|
                    0 <= li < j && notes@[li] == nsel[nsel.len() - 1];
                assert(notes@[u].updated_at <= notes@[li].updated_at);
            }
        }
    }
    if note_parts.len() > 0 {
        let block = join_with_bars(&note_parts);
        let chunk = String::from_str("Latest notes: ").concat(block.as_str());
        proof {
            assert(chunk@ == "Latest notes: "@ + spec_join_bars(
                nsel.map_values(|n: NoteRecord| n.title@),
            ));
        }
        chunks.push(chunk);
    }

    if chunks.len() == 0 {
        chunks.push(
            String::from_str("No recent messages or notes. Snapshot created as a baseline."),
        );
        proof {
            reveal_strlit("No recent messages or notes. Snapshot created as a baseline.");
        }
        let r = join_lines(&chunks);
        proof {
            assert(chunks.deep_view() =~= seq![
                "No recent messages or notes. Snapshot created as a baseline."@,
            ]);
        }
        return r;
    }
    proof {
        reveal_strlit("Latest messages: ");
        reveal_strlit("Latest notes: ");
        assert(chunks.deep_view().len() == chunks@.len());
        assert(chunks.deep_view()[0].len() > 0) by {
            if msel.len() > 0 {
                lemma_join_bars_first_len(msel.map_values(
                    |m: MessageRecord| spec_message_line(m),
                ));
            } else {
                lemma_join_bars_first_len(nsel.map_values(|n: NoteRecord| n.title@));
            }
        }
        lemma_join_nl_first_len(chunks.deep_view());
        lemma_join_nl_first_prefix(chunks.deep_view());
        let first = chunks.deep_view()[0];
        let whole = spec_join_nl(chunks.deep_view());
        if chunks_after_messages.len() > 0 {
            assert(first == chunks_after_messages[0]);
            assert(first.subrange(0, "Latest messages: "@.len() as int) =~= "Latest messages: "@);
            assert(whole.subrange(0, "Latest messages: "@.len() as int) =~= first.subrange(
                0,
                "Latest messages: "@.len() as int,
            ));
            assert(crate::paths::is_seq_prefix("Latest messages: "@, whole));
        } else {
            assert(first.subrange(0, "Latest notes: "@.len() as int) =~= "Latest notes: "@);
            assert(whole.subrange(0, "Latest notes: "@.len() as int) =~= first.subrange(
                0,
                "Latest notes: "@.len() as int,
            ));
            assert(crate::paths::is_seq_prefix("Latest notes: "@, whole));
        }
        assert(chunks.deep_view() =~= (if msel.len() > 0 {
            seq!["Latest messages: "@ + spec_join_bars(
                msel.map_values(|m: MessageRecord| spec_message_line(m)),
            )]
        } else {
            Seq::<Seq<char>>::empty()
        }) + (if nsel.len() > 0 {
            seq!["Latest notes: "@ + spec_join_bars(nsel.map_values(|n: NoteRecord| n.title@))]
        } else {
            Seq::<Seq<char>>::empty()
        }));
    }
    join_lines(&chunks)
}

/// Joined lines are at least as long as the first line.
proof fn lemma_join_nl_first_len(lines: Seq<Seq<char>>)
    requires
        lines.len() > 0,
    ensures
        spec_join_nl(lines).len() >= lines[0].len(),
    decreases lines.len(),
{
    if lines.len() > 1 {
        lemma_join_nl_first_len(lines.drop_last());
        assert(lines.drop_last()[0] == lines[0]);
    }
}

/// Joined lines start with the first line.
proof fn lemma_join_nl_first_prefix(lines: Seq<Seq<char>>)
    requires
        lines.len() > 0,
    ensures
        crate::paths::is_seq_prefix(lines[0], spec_join_nl(lines)),
    decreases lines.len(),
{
    if lines.len() == 1 {
        assert(spec_join_nl(lines).subrange(0, lines[0].len() as int) =~= lines[0]);
    } else {
        lemma_join_nl_first_prefix(lines.drop_last());
        assert(lines.drop_last()[0] == lines[0]);
        let a = spec_join_nl(lines.drop_last());
        let whole = a + seq!['\n'] + lines.last();
        assert(whole.subrange(0, lines[0].len() as int) =~= a.subrange(
            0,
            lines[0].len() as int,
        ));
    }
}

/// The parts joined with a ` | ` separator between each pair.
pub open spec fn spec_join_bars(parts: Seq<Seq<char>>) -> Seq<char>
    decreases parts.len(),
{
    if parts.len() == 0 {
        Seq::<char>::empty()
    } else if parts.len() == 1 {
        parts[0]
    } else {
        spec_join_bars(parts.drop_last()) + " | "@ + parts.last()
    }
}

/// Joined parts are at least as long as the first part.
proof fn lemma_join_bars_first_len(parts: Seq<Seq<char>>)
    requires
        parts.len() > 0,
    ensures
        spec_join_bars(parts).len() >= parts[0].len(),
    decreases parts.len(),
{
    if parts.len() > 1 {
        lemma_join_bars_first_len(parts.drop_last());
        assert(parts.drop_last()[0] == parts[0]);
    }
}

/// Joins parts with a ` | ` separator; see [`spec_join_bars`].
fn join_with_bars(parts: &Vec<String>) -> (r: String)
    ensures
        r@ == spec_join_bars(parts.deep_view()),
{
    let mut out = String::new();
    let mut i: usize = 0;
    proof {
        assert(parts.deep_view().subrange(0, 0) =~= Seq::<Seq<char>>::empty());
    }
    while i < parts.len()
        invariant
            i <= parts@.len(),
            parts.deep_view().len() == parts@.len(),
            out@ == spec_join_bars(parts.deep_view().subrange(0, i as int)),
        decreases parts@.len() - i,
    {
        let ghost pre = parts.deep_view().subrange(0, i as int);
        let ghost post = parts.deep_view().subrange(0, i as int + 1);
        proof {
            assert(post.drop_last() =~= pre);
            assert(post.last() == parts.deep_view()[i as int]);
            assert(parts.deep_view()[i as int] == parts@[i as int]@);
        }
        if i > 0 {
            out.append(" | ");
        } else {
            proof {
                assert(pre.len() == 0);
                assert(post.len() == 1);
                assert(spec_join_bars(post) == post[0]);
            }
        }
        out.append(parts[i].as_str());
        i += 1;
    }
    proof {
        assert(parts.deep_view().subrange(0, parts.deep_view().len() as int) =~= parts
            .deep_view());
    }
    out
}

/// The line the summary shows for one message: its role, a colon, and
/// its content shortened to sixty characters.
pub open spec fn spec_message_line(m: MessageRecord) -> Seq<char> {
    m.role@ + ":"@ + crate::notes::spec_trim_for_table(m.content@, 60)
}

} // verus!
