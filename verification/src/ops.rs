//! The store operations behind the command-line verbs: validation,
//! record construction and filtering.  All of it is pure store logic;
//! reading and writing record files, and printing, stay with the caller.

use crate::notes::BranchRecord;
use crate::notes::ConversationRecord;
use crate::notes::MessageRecord;
use crate::notes::NoteRecord;
use crate::notes::NotesError;
use crate::notes::NotesStore;
use crate::notes::RepoContext;
use crate::notes::SnapshotRecord;
use crate::notes::normalize_priority;
use crate::notes::normalize_status;
use crate::notes::now_ts;
use crate::notes::resolve_note_conversation_id;
use crate::strings::clean_items;
use crate::strings::clean_tags;
use crate::notes::HasId;
use crate::notes::spec_canon_word;
use crate::strings::spec_clean_tags;
use crate::strings::spec_trim;
use crate::strings::str_eq;
use crate::strings::to_ascii_lower;
use crate::strings::trim;
use vstd::prelude::*;

verus! {

/// Creates a conversation with the given title; a title that trims to
/// nothing is refused.
pub fn conversation_create(store: &mut NotesStore, title: &str) -> (r: Result<
    ConversationRecord,
    NotesError,
>)
    requires
        old(store).id_counter < u64::MAX,
    ensures
        r is Ok <==> spec_trim(title@).len() > 0,
        r is Err ==> r->Err_0 == NotesError::EmptyTitle,
        r is Err ==> *final(store) == *old(store),
        r is Ok ==> {
            &&& r->Ok_0.title@ == spec_trim(title@)
            &&& r->Ok_0.root_message_id is None
            &&& r->Ok_0.created_at == r->Ok_0.updated_at
            &&& exists|j: int|
                0 <= j < final(store).conversations@.len() && #[trigger] final(
                    store).conversations@[j] == r->Ok_0
        },
{
    let trimmed = trim(title);
    if trimmed.as_str().unicode_len() == 0 {
        return Err(NotesError::EmptyTitle);
    }
    let now = now_ts();
    let id = store.fresh_id("c");
    let conversation = ConversationRecord {
        id,
        title: trimmed,
        created_at: now,
        updated_at: now,
        root_message_id: None,
    };
    store.save_conversation(&conversation);
    let result = conversation.clone();
    proof {
        let j = choose|j: int|
            0 <= j < store.conversations@.len() && store.conversations@[j] == conversation;
        assert(store.conversations@[j] == result);
    }
    Ok(result)
}

/// The view of an optional string value.
pub open spec fn view_opt_v(o: Option<String>) -> Option<Seq<char>> {
    match o {
        Some(s) => Some(s@),
        None => None,
    }
}

/// Whether the conversation a note should land in can be resolved: an
/// explicitly named conversation must exist (and hold the named message
/// when one is given), a named message alone must exist with its owning
/// conversation, and naming nothing always resolves to the default.
pub open spec fn spec_note_target_resolvable(
    conversations: Seq<ConversationRecord>,
    messages: Seq<MessageRecord>,
    conversation: Option<Seq<char>>,
    message: Option<Seq<char>>,
) -> bool {
    match (conversation, message) {
        (Some(c), Some(m)) => (exists|j: int|
            0 <= j < messages.len() && (#[trigger] messages[j]).id@ == m
                && messages[j].conversation_id@ == c) && (exists|k: int|
            0 <= k < conversations.len() && (#[trigger] conversations[k]).sid() == c),
        (None, Some(m)) => exists|j: int|
            {
                &&& 0 <= j < messages.len()
                &&& (#[trigger] messages[j]).id@ == m
                &&& (forall|t: int| 0 <= t < j ==> messages[t].id@ != m)
                &&& exists|k: int|
                    0 <= k < conversations.len() && (#[trigger] conversations[k]).sid()
                        == messages[j].conversation_id@
            },
        (Some(c), None) => exists|k: int|
            0 <= k < conversations.len() && (#[trigger] conversations[k]).sid() == c,
        (None, None) => true,
    }
}

/// The conversation record as storing a new message leaves it: the
/// update time moves to the message, and the first stored message becomes
/// the conversation's root.
pub open spec fn spec_conversation_after_message(
    c: ConversationRecord,
    msg: MessageRecord,
) -> ConversationRecord {
    ConversationRecord {
        id: c.id,
        title: c.title,
        created_at: c.created_at,
        updated_at: msg.created_at,
        root_message_id: if c.root_message_id is None {
            Some(msg.id)
        } else {
            c.root_message_id
        },
    }
}

/// Whether a role word is one a message may carry.
pub open spec fn spec_valid_role(folded: Seq<char>) -> bool {
    folded == "user"@ || folded == "assistant"@ || folded == "system"@ || folded == "tool"@
}

/// Adds a message to a conversation: the role must be one of `user`,
/// `assistant`, `system` or `tool`, the content must not trim to
/// nothing, and a named parent must exist in the same conversation.
/// Exactly on valid inputs a message is stored; the conversation's
/// update time moves to the new message, its first message becomes its
/// root, and a refused request changes nothing.
pub fn message_add(
    store: &mut NotesStore,
    conversation_id: &str,
    role: &str,
    content: &str,
    parent: Option<String>,
) -> (r: Result<MessageRecord, NotesError>)
    requires
        old(store).id_counter < u64::MAX,
    ensures
        r is Err ==> *final(store) == *old(store),
        r is Err && r->Err_0 == NotesError::ConversationNotFound <==> (forall|k: int|
            0 <= k < old(store).conversations@.len() ==> (#[trigger] old(
                store).conversations@[k]).sid() != conversation_id@),
        r is Err && r->Err_0 == NotesError::InvalidRole <==> ((exists|k: int|
            0 <= k < old(store).conversations@.len() && (#[trigger] old(
                store).conversations@[k]).sid() == conversation_id@) && !spec_valid_role(
            spec_canon_word(role@),
        )),
        r is Err && r->Err_0 == NotesError::EmptyContent <==> ((exists|k: int|
            0 <= k < old(store).conversations@.len() && (#[trigger] old(
                store).conversations@[k]).sid() == conversation_id@) && spec_valid_role(
            spec_canon_word(role@),
        ) && spec_trim(content@).len() == 0),
        r is Err ==> (r->Err_0 == NotesError::ConversationNotFound || r->Err_0
            == NotesError::InvalidRole || r->Err_0 == NotesError::EmptyContent || r->Err_0
            == NotesError::MessageNotFound),
        ((exists|k: int|
            0 <= k < old(store).conversations@.len() && (#[trigger] old(
                store).conversations@[k]).sid() == conversation_id@) && spec_valid_role(
            spec_canon_word(role@),
        ) && spec_trim(content@).len() > 0 && (match parent {
            Some(p) => exists|j: int|
                0 <= j < old(store).messages@.len() && (#[trigger] old(store).messages@[j]).id@
                    == p@ && old(store).messages@[j].conversation_id@ == conversation_id@,
            None => true,
        })) ==> r is Ok,
        r is Ok ==> {
            &&& spec_valid_role(spec_canon_word(role@))
            &&& r->Ok_0.role@ == spec_canon_word(role@)
            &&& r->Ok_0.content@ == spec_trim(content@)
            &&& r->Ok_0.conversation_id@ == conversation_id@
            &&& r->Ok_0.parent_id == parent
            &&& exists|j: int|
                0 <= j < final(store).messages@.len() && #[trigger] final(store).messages@[j]
                    == r->Ok_0
            &&& (exists|j: int|
                {
                    &&& 0 <= j < old(store).conversations@.len()
                    &&& (#[trigger] old(store).conversations@[j]).sid() == conversation_id@
                    &&& (forall|t: int|
                        0 <= t < j ==> old(store).conversations@[t].sid() != conversation_id@)
                    &&& exists|k: int|
                        0 <= k < final(store).conversations@.len() && #[trigger] final(
                            store).conversations@[k] == spec_conversation_after_message(
                            old(store).conversations@[j],
                            r->Ok_0,
                        )
                })
        },
{
    let conversation = match store.load_conversation(conversation_id) {
        Ok(c) => c,
        Err(e) => {
            return Err(e);
        },
    };
    let trimmed_role = trim(role);
    let folded_role = to_ascii_lower(trimmed_role.as_str());
    if !(str_eq(folded_role.as_str(), "user") || str_eq(folded_role.as_str(), "assistant")
        || str_eq(folded_role.as_str(), "system") || str_eq(folded_role.as_str(), "tool")) {
        return Err(NotesError::InvalidRole);
    }
    let trimmed_content = trim(content);
    if trimmed_content.as_str().unicode_len() == 0 {
        return Err(NotesError::EmptyContent);
    }
    match &parent {
        Some(parent_id) => {
            match store.find_message(parent_id.as_str(), Some(conversation_id)) {
                Ok(_) => {
                },
                Err(_) => {
                    return Err(NotesError::MessageNotFound);
                },
            }
        },
        None => {
        },
    }
    let now = now_ts();
    let id = store.fresh_id("m");
    let message = MessageRecord {
        id,
        conversation_id: conversation_id.to_owned(),
        parent_id: parent,
        role: folded_role,
        content: trimmed_content,
        created_at: now,
    };
    let ghost loaded = conversation;
    let mut updated = conversation;
    if updated.root_message_id.is_none() {
        updated.root_message_id = Some(message.id.clone());
    }
    updated.updated_at = message.created_at;
    store.save_message(&message);
    store.save_conversation(&updated);
    let result = message.clone();
    proof {
        let j = choose|j: int|
            0 <= j < store.messages@.len() && store.messages@[j] == message;
        assert(store.messages@[j] == result);
        assert(updated == spec_conversation_after_message(loaded, result));
        let k = choose|k: int|
            0 <= k < store.conversations@.len() && store.conversations@[k] == updated;
        assert(store.conversations@[k] == updated);
    }
    Ok(result)
}

/// Adds a note: the title and body must not trim to nothing, and the
/// status and priority words must validate.  The note lands in the named
/// conversation, the conversation owning the named message, or the
/// default one.
pub fn note_add(
    store: &mut NotesStore,
    title: &str,
    body: &str,
    conversation: Option<String>,
    message: Option<String>,
    tags: &Vec<String>,
    status: String,
    priority: String,
    repo_ctx: Option<RepoContext>,
) -> (r: Result<NoteRecord, NotesError>)
    requires
        old(store).id_counter < u64::MAX - 1,
    ensures
        r is Err ==> *final(store) == *old(store),
        r is Err && r->Err_0 == NotesError::EmptyTitle <==> spec_trim(title@).len() == 0,
        r is Err && r->Err_0 == NotesError::EmptyBody <==> (spec_trim(title@).len() > 0
            && spec_trim(body@).len() == 0),
        r is Err && r->Err_0 == NotesError::InvalidStatus <==> (spec_trim(title@).len() > 0
            && spec_trim(body@).len() > 0 && !crate::notes::spec_valid_status(
            spec_canon_word(status@),
        )),
        r is Err && r->Err_0 == NotesError::InvalidPriority <==> (spec_trim(title@).len() > 0
            && spec_trim(body@).len() > 0 && crate::notes::spec_valid_status(
            spec_canon_word(status@),
        ) && !crate::notes::spec_valid_priority(spec_canon_word(priority@))),
        (spec_trim(title@).len() > 0 && spec_trim(body@).len() > 0
            && crate::notes::spec_valid_status(spec_canon_word(status@))
            && crate::notes::spec_valid_priority(spec_canon_word(priority@))
            && spec_note_target_resolvable(
            old(store).conversations@,
            old(store).messages@,
            view_opt_v(conversation),
            view_opt_v(message),
        )) ==> r is Ok,
        r is Ok ==> {
            &&& r->Ok_0.title@ == spec_trim(title@)
            &&& r->Ok_0.body@ == spec_trim(body@)
            &&& r->Ok_0.tags.deep_view() == spec_clean_tags(tags.deep_view())
            &&& r->Ok_0.status@ == spec_canon_word(status@)
            &&& r->Ok_0.priority@ == spec_canon_word(priority@)
            &&& r->Ok_0.message_id == message
            &&& r->Ok_0.created_at == r->Ok_0.updated_at
            &&& exists|j: int|
                0 <= j < final(store).notes@.len() && crate::notes::note_matches(
                    #[trigger] final(store).notes@[j],
                    r->Ok_0,
                )
        },
{
    let trimmed_title = trim(title);
    if trimmed_title.as_str().unicode_len() == 0 {
        return Err(NotesError::EmptyTitle);
    }
    let trimmed_body = trim(body);
    if trimmed_body.as_str().unicode_len() == 0 {
        return Err(NotesError::EmptyBody);
    }
    let status = match normalize_status(status) {
        Ok(s) => s,
        Err(e) => {
            return Err(e);
        },
    };
    let priority = match normalize_priority(priority) {
        Ok(p) => p,
        Err(e) => {
            return Err(e);
        },
    };
    let cleaned_tags = clean_tags(tags);
    let message_for_lookup = match &message {
        Some(m) => Some(m.clone()),
        None => None,
    };
    let conversation_id = match resolve_note_conversation_id(
        store,
        conversation,
        message_for_lookup,
    ) {
        Ok(cid) => cid,
        Err(e) => {
            return Err(e);
        },
    };
    let now = now_ts();
    let id = store.fresh_id("n");
    let note = NoteRecord {
        id,
        conversation_id,
        message_id: message,
        title: trimmed_title,
        body: trimmed_body,
        tags: cleaned_tags,
        status,
        priority,
        created_at: now,
        updated_at: now,
        repo_ctx,
    };
    store.save_note(&note);
    let result = note.clone();
    proof {
        let j = choose|j: int|
            0 <= j < store.notes@.len() && crate::notes::note_matches(
                #[trigger] store.notes@[j],
                note,
            );
        assert(crate::notes::note_matches(store.notes@[j], result));
    }
    Ok(result)
}

/// Whether a tag list holds the annotation marker.
pub open spec fn spec_has_annotation_tag(tags: Seq<Seq<char>>) -> bool {
    exists|i: int| 0 <= i < tags.len() && tags[i] == "annotation"@
}

/// Attaches an annotation note to one message: the body must not trim to
/// nothing, and the note always carries the `annotation` tag.
pub fn note_annotate(
    store: &mut NotesStore,
    message_id: &str,
    body: &str,
    conversation: Option<String>,
    tags: &Vec<String>,
    repo_ctx: Option<RepoContext>,
) -> (r: Result<NoteRecord, NotesError>)
    requires
        old(store).id_counter < u64::MAX,
    ensures
        r is Err ==> *final(store) == *old(store),
        r is Err && r->Err_0 == NotesError::EmptyBody <==> spec_trim(body@).len() == 0,
        (spec_trim(body@).len() > 0 && spec_note_target_resolvable(
            old(store).conversations@,
            old(store).messages@,
            view_opt_v(conversation),
            Some(message_id@),
        )) ==> r is Ok,
        r is Ok ==> {
            &&& r->Ok_0.body@ == spec_trim(body@)
            &&& spec_has_annotation_tag(r->Ok_0.tags.deep_view())
            &&& r->Ok_0.status@ == "open"@
            &&& r->Ok_0.priority@ == "p2"@
            &&& r->Ok_0.created_at == r->Ok_0.updated_at
            &&& exists|j: int|
                0 <= j < final(store).notes@.len() && crate::notes::note_matches(
                    #[trigger] final(store).notes@[j],
                    r->Ok_0,
                )
        },
{
    let trimmed_body = trim(body);
    if trimmed_body.as_str().unicode_len() == 0 {
        return Err(NotesError::EmptyBody);
    }
    let conversation_ref = match &conversation {
        Some(c) => Some(c.as_str()),
        None => None,
    };
    let (found_conversation, found_message) = match store.find_message(
        message_id,
        conversation_ref,
    ) {
        Ok(pair) => pair,
        Err(e) => {
            return Err(e);
        },
    };
    let mut cleaned_tags = clean_tags(tags);
    let mut has_marker = false;
    let mut i: usize = 0;
    while i < cleaned_tags.len()
        invariant
            i <= cleaned_tags@.len(),
            has_marker ==> spec_has_annotation_tag(cleaned_tags.deep_view()),
        decreases cleaned_tags@.len() - i,
    {
        if str_eq(cleaned_tags[i].as_str(), "annotation") {
            proof {
                assert(cleaned_tags.deep_view()[i as int] == "annotation"@);
            }
            has_marker = true;
        }
        i += 1;
    }
    if !has_marker {
        let ghost dv = cleaned_tags.deep_view();
        cleaned_tags.push(String::from_str("annotation"));
        proof {
            assert(cleaned_tags.deep_view() =~= dv.push("annotation"@));
            assert(cleaned_tags.deep_view()[dv.len() as int] == "annotation"@);
        }
    }
    let mut title = String::from_str("Annotation: ");
    title.append(found_message.id.as_str());
    let now = now_ts();
    let id = store.fresh_id("n");
    let note = NoteRecord {
        id,
        conversation_id: found_conversation.id,
        message_id: Some(found_message.id.clone()),
        title,
        body: trimmed_body,
        tags: cleaned_tags,
        status: String::from_str("open"),
        priority: String::from_str("p2"),
        created_at: now,
        updated_at: now,
        repo_ctx,
    };
    store.save_note(&note);
    let result = note.clone();
    proof {
        let j = choose|j: int|
            0 <= j < store.notes@.len() && crate::notes::note_matches(
                #[trigger] store.notes@[j],
                note,
            );
        assert(crate::notes::note_matches(store.notes@[j], result));
    }
    Ok(result)
}

/// Updates one note in place: present fields replace the stored ones
/// after the same validation that adding applies; `clear_tags` empties
/// the tag list and otherwise a non-empty tag list replaces it.
pub fn note_update(
    store: &mut NotesStore,
    id: &str,
    title: Option<String>,
    body: Option<String>,
    tags: &Vec<String>,
    status: Option<String>,
    priority: Option<String>,
    clear_tags: bool,
) -> (r: Result<NoteRecord, NotesError>)
    ensures
        r is Err ==> *final(store) == *old(store),
        r is Ok ==> {
            &&& title is Some ==> r->Ok_0.title@ == spec_trim(title->Some_0@)
            &&& body is Some ==> r->Ok_0.body@ == spec_trim(body->Some_0@)
            &&& status is Some ==> r->Ok_0.status@ == spec_canon_word(status->Some_0@)
            &&& priority is Some ==> r->Ok_0.priority@ == spec_canon_word(priority->Some_0@)
            &&& clear_tags ==> r->Ok_0.tags@.len() == 0
            &&& exists|j: int|
                0 <= j < final(store).notes@.len() && crate::notes::note_matches(
                    #[trigger] final(store).notes@[j],
                    r->Ok_0,
                )
        },
{
    let mut note = match store.load_note(id) {
        Ok(n) => n,
        Err(e) => {
            return Err(e);
        },
    };
    match title {
        Some(t) => {
            let trimmed = trim(t.as_str());
            if trimmed.as_str().unicode_len() == 0 {
                return Err(NotesError::EmptyTitle);
            }
            note.title = trimmed;
        },
        None => {
        },
    }
    match body {
        Some(b) => {
            let trimmed = trim(b.as_str());
            if trimmed.as_str().unicode_len() == 0 {
                return Err(NotesError::EmptyBody);
            }
            note.body = trimmed;
        },
        None => {
        },
    }
    if clear_tags {
        note.tags = Vec::new();
        proof {
            assert(note.tags@.len() == 0);
        }
    } else if tags.len() > 0 {
        note.tags = clean_tags(tags);
    }
    match status {
        Some(s) => {
            match normalize_status(s) {
                Ok(canon) => {
                    note.status = canon;
                },
                Err(e) => {
                    return Err(e);
                },
            }
        },
        None => {
        },
    }
    match priority {
        Some(p) => {
            match normalize_priority(p) {
                Ok(canon) => {
                    note.priority = canon;
                },
                Err(e) => {
                    return Err(e);
                },
            }
        },
        None => {
        },
    }
    note.updated_at = now_ts();
    store.save_note(&note);
    let result = note.clone();
    proof {
        let j = choose|j: int|
            0 <= j < store.notes@.len() && crate::notes::note_matches(
                #[trigger] store.notes@[j],
                note,
            );
        assert(crate::notes::note_matches(store.notes@[j], result));
    }
    Ok(result)
}

/// Archives one note: its status becomes `archived`.
pub fn note_archive(store: &mut NotesStore, id: &str) -> (r: Result<NoteRecord, NotesError>)
    ensures
        r is Err ==> *final(store) == *old(store),
        r is Ok <==> exists|j: int|
            0 <= j < old(store).notes@.len() && (#[trigger] old(store).notes@[j]).sid() == id@,
        r is Err ==> r->Err_0 == NotesError::NoteNotFound,
        r is Ok ==> {
            &&& r->Ok_0.status@ == "archived"@
            &&& exists|j: int|
                0 <= j < final(store).notes@.len() && crate::notes::note_matches(
                    #[trigger] final(store).notes@[j],
                    r->Ok_0,
                )
        },
{
    let mut note = match store.load_note(id) {
        Ok(n) => n,
        Err(e) => {
            return Err(e);
        },
    };
    note.status = String::from_str("archived");
    note.updated_at = now_ts();
    store.save_note(&note);
    let result = note.clone();
    proof {
        let j = choose|j: int|
            0 <= j < store.notes@.len() && crate::notes::note_matches(
                #[trigger] store.notes@[j],
                note,
            );
        assert(crate::notes::note_matches(store.notes@[j], result));
    }
    Ok(result)
}

} // verus!

verus! {

/// The view of an optional string.
pub open spec fn view_opt(o: &Option<String>) -> Option<Seq<char>> {
    match o {
        Some(s) => Some(s@),
        None => None,
    }
}

/// Whether a note passes the listing filters: an expected status, tag,
/// conversation or repository must match when given; the repository word
/// `current` matches against the captured current repository, and fails
/// when none was captured.
pub open spec fn spec_note_passes(
    n: NoteRecord,
    status: Option<Seq<char>>,
    tag: Option<Seq<char>>,
    conversation: Option<Seq<char>>,
    repo: Option<Seq<char>>,
    current_repo_path: Option<Seq<char>>,
) -> bool {
    &&& (match status {
        Some(s) => n.status@ == s,
        None => true,
    })
    &&& (match tag {
        Some(t) => exists|i: int| 0 <= i < n.tags@.len() && #[trigger] n.tags@[i]@ == t,
        None => true,
    })
    &&& (match conversation {
        Some(c) => n.conversation_id@ == c,
        None => true,
    })
    &&& (match repo {
        Some(rp) => {
            if rp == "current"@ {
                match current_repo_path {
                    Some(cp) => n.repo_ctx is Some && n.repo_ctx->Some_0.repo_path@ == cp,
                    None => false,
                }
            } else {
                n.repo_ctx is Some && n.repo_ctx->Some_0.repo_path@ == rp
            }
        },
        None => true,
    })
}

fn note_passes(
    n: &NoteRecord,
    status: &Option<String>,
    tag: &Option<String>,
    conversation: &Option<String>,
    repo: &Option<String>,
    current_repo_path: &Option<String>,
) -> (r: bool)
    ensures
        r == spec_note_passes(
            *n,
            view_opt(status),
            view_opt(tag),
            view_opt(conversation),
            view_opt(repo),
            view_opt(current_repo_path),
        ),
{
    match status {
        Some(s) => {
            if !str_eq(n.status.as_str(), s.as_str()) {
                return false;
            }
        },
        None => {
        },
    }
    match tag {
        Some(t) => {
            let mut found = false;
            let mut i: usize = 0;
            while i < n.tags.len()
                invariant
                    i <= n.tags@.len(),
                    found == exists|j: int| 0 <= j < i && #[trigger] n.tags@[j]@ == t@,
                decreases n.tags@.len() - i,
            {
                if str_eq(n.tags[i].as_str(), t.as_str()) {
                    proof {
                        assert(n.tags@[i as int]@ == t@);
                    }
                    found = true;
                }
                proof {
                    if found && !(exists|j: int| 0 <= j < i + 1 && #[trigger] n.tags@[j]@ == t@) {
                        assert(false);
                    }
                }
                i += 1;
            }
            if !found {
                return false;
            }
        },
        None => {
        },
    }
    match conversation {
        Some(c) => {
            if !str_eq(n.conversation_id.as_str(), c.as_str()) {
                return false;
            }
        },
        None => {
        },
    }
    match repo {
        Some(rp) => {
            if str_eq(rp.as_str(), "current") {
                match current_repo_path {
                    Some(cp) => {
                        match &n.repo_ctx {
                            Some(ctx) => {
                                if !str_eq(ctx.repo_path.as_str(), cp.as_str()) {
                                    return false;
                                }
                            },
                            None => {
                                return false;
                            },
                        }
                    },
                    None => {
                        return false;
                    },
                }
            } else {
                match &n.repo_ctx {
                    Some(ctx) => {
                        if !str_eq(ctx.repo_path.as_str(), rp.as_str()) {
                            return false;
                        }
                    },
                    None => {
                        return false;
                    },
                }
            }
        },
        None => {
        },
    }
    true
}

/// The notes that pass the listing filters, in order.
pub open spec fn spec_filter_notes(
    rows: Seq<NoteRecord>,
    status: Option<Seq<char>>,
    tag: Option<Seq<char>>,
    conversation: Option<Seq<char>>,
    repo: Option<Seq<char>>,
    current_repo_path: Option<Seq<char>>,
) -> Seq<NoteRecord>
    decreases rows.len(),
{
    if rows.len() == 0 {
        Seq::<NoteRecord>::empty()
    } else {
        let prev = spec_filter_notes(
            rows.drop_last(),
            status,
            tag,
            conversation,
            repo,
            current_repo_path,
        );
        if spec_note_passes(rows.last(), status, tag, conversation, repo, current_repo_path) {
            prev.push(rows.last())
        } else {
            prev
        }
    }
}

/// Keeps exactly the notes that pass the listing filters, in order; see
/// [`spec_note_passes`].
pub fn note_list_filter(
    rows: Vec<NoteRecord>,
    status: &Option<String>,
    tag: &Option<String>,
    conversation: &Option<String>,
    repo: &Option<String>,
    current_repo_path: &Option<String>,
) -> (r: Vec<NoteRecord>)
    ensures
        r@ == spec_filter_notes(
            rows@,
            view_opt(status),
            view_opt(tag),
            view_opt(conversation),
            view_opt(repo),
            view_opt(current_repo_path),
        ),
{
    let ghost sv = view_opt(status);
    let ghost tv = view_opt(tag);
    let ghost cv = view_opt(conversation);
    let ghost rv = view_opt(repo);
    let ghost cpv = view_opt(current_repo_path);
    let ghost orig = rows@;
    let mut src = rows;
    let total = src.len();
    let mut out: Vec<NoteRecord> = Vec::new();
    let mut k: usize = 0;
    proof {
        assert(orig.subrange(0, 0) =~= Seq::<NoteRecord>::empty());
        assert(out@ =~= Seq::<NoteRecord>::empty());
        assert(src@ =~= orig.subrange(0, orig.len() as int));
    }
    while src.len() > 0
        invariant
            k + src@.len() == orig.len(),
            k + src@.len() == total,
            src@ == orig.subrange(k as int, orig.len() as int),
            out@ == spec_filter_notes(orig.subrange(0, k as int), sv, tv, cv, rv, cpv),
            sv == view_opt(status),
            tv == view_opt(tag),
            cv == view_opt(conversation),
            rv == view_opt(repo),
            cpv == view_opt(current_repo_path),
        decreases src@.len(),
    {
        let ghost pre = orig.subrange(0, k as int);
        let ghost post = orig.subrange(0, k as int + 1);
        proof {
            assert(post.drop_last() =~= pre);
            assert(post.last() == orig[k as int]);
            assert(src@[0] == orig[k as int]);
        }
        let ghost srcpre = src@;
        let x = src.remove(0);
        proof {
            assert(x == orig[k as int]);
            assert(src@ =~= orig.subrange(k as int + 1, orig.len() as int));
        }
        if note_passes(&x, status, tag, conversation, repo, current_repo_path) {
            let ghost dv = out@;
            out.push(x);
            proof {
                assert(spec_note_passes(x, sv, tv, cv, rv, cpv));
                assert(spec_note_passes(post.last(), sv, tv, cv, rv, cpv));
                assert(spec_filter_notes(post, sv, tv, cv, rv, cpv) == spec_filter_notes(
                    post.drop_last(),
                    sv,
                    tv,
                    cv,
                    rv,
                    cpv,
                ).push(post.last()));
                assert(spec_filter_notes(post.drop_last(), sv, tv, cv, rv, cpv)
                    == spec_filter_notes(pre, sv, tv, cv, rv, cpv));
                assert(out@ =~= dv.push(orig[k as int]));
                assert(out@ =~= spec_filter_notes(post, sv, tv, cv, rv, cpv));
            }
        } else {
            proof {
                assert(!spec_note_passes(x, sv, tv, cv, rv, cpv));
                assert(!spec_note_passes(post.last(), sv, tv, cv, rv, cpv));
                assert(spec_filter_notes(post, sv, tv, cv, rv, cpv) == spec_filter_notes(
                    pre,
                    sv,
                    tv,
                    cv,
                    rv,
                    cpv,
                ));
                assert(out@ =~= spec_filter_notes(post, sv, tv, cv, rv, cpv));
            }
        }
        k += 1;
    }
    proof {
        assert(orig.subrange(0, k as int) =~= orig);
    }
    out
}

} // verus!

verus! {

/// Creates a snapshot of a conversation: an explicit summary must not
/// trim to nothing; without one, `from_latest` derives a summary from the
/// conversation's recent messages and notes, and otherwise the request is
/// refused.
pub fn snapshot_create(
    store: &mut NotesStore,
    conversation_id: &str,
    summary: Option<String>,
    todo: &Vec<String>,
    risk: &Vec<String>,
    from_latest: bool,
    repo_ctx: Option<crate::notes::RepoContext>,
) -> (r: Result<SnapshotRecord, NotesError>)
    requires
        old(store).id_counter < u64::MAX,
    ensures
        r is Err ==> *final(store) == *old(store),
        r is Ok <==> ((exists|k: int|
            0 <= k < old(store).conversations@.len() && (#[trigger] old(
                store).conversations@[k]).sid() == conversation_id@) && (match summary {
            Some(s) => spec_trim(s@).len() > 0,
            None => from_latest,
        })),
        r is Ok ==> {
            &&& summary is Some ==> r->Ok_0.summary@ == spec_trim(summary->Some_0@)
            &&& r->Ok_0.summary@.len() > 0
            &&& r->Ok_0.conversation_id@ == conversation_id@
            &&& r->Ok_0.todo.deep_view() == crate::strings::spec_clean_items(todo.deep_view())
            &&& r->Ok_0.risks.deep_view() == crate::strings::spec_clean_items(risk.deep_view())
            &&& exists|j: int|
                0 <= j < final(store).snapshots@.len() && crate::notes::snapshot_matches(
                    #[trigger] final(store).snapshots@[j],
                    r->Ok_0,
                )
        },
        r is Err ==> (r->Err_0 == NotesError::EmptySummary || r->Err_0
            == NotesError::ConversationNotFound),
        r is Err && r->Err_0 == NotesError::ConversationNotFound <==> (forall|k: int|
            0 <= k < old(store).conversations@.len() ==> (#[trigger] old(
                store).conversations@[k]).sid() != conversation_id@),
{
    let conversation = match store.load_conversation(conversation_id) {
        Ok(c) => c,
        Err(e) => {
            return Err(e);
        },
    };
    let summary_text = match summary {
        Some(s) => {
            let trimmed = trim(s.as_str());
            if trimmed.as_str().unicode_len() == 0 {
                return Err(NotesError::EmptySummary);
            }
            trimmed
        },
        None => {
            if from_latest {
                crate::render::build_latest_summary(store, conversation_id)
            } else {
                return Err(NotesError::EmptySummary);
            }
        },
    };
    let todo_items = clean_items(todo);
    let risk_items = clean_items(risk);
    let now = now_ts();
    let id = store.fresh_id("s");
    let snapshot = SnapshotRecord {
        id,
        conversation_id: conversation_id.to_owned(),
        summary: summary_text,
        todo: todo_items,
        risks: risk_items,
        repo_ctx,
        created_at: now,
    };
    store.save_snapshot(&snapshot);
    let result = snapshot.clone();
    proof {
        let j = choose|j: int|
            0 <= j < store.snapshots@.len() && crate::notes::snapshot_matches(
                #[trigger] store.snapshots@[j],
                snapshot,
            );
        assert(crate::notes::snapshot_matches(store.snapshots@[j], result));
    }
    Ok(result)
}

/// Forks a new conversation out of one message: the new conversation is
/// titled by the trimmed title argument (or `branch-` plus the source
/// message identifier), starts with a copy of the source message's role
/// and content as its root, carries a system message recording the fork,
/// and is tied to its source by a branch record.  Exactly on an existing
/// source message does the fork succeed; a refused request changes
/// nothing, and every stored record a fork touches is one of its own.
pub fn branch_fork(
    store: &mut NotesStore,
    message_id: &str,
    conversation: Option<String>,
    title: Option<String>,
) -> (r: Result<(BranchRecord, ConversationRecord), NotesError>)
    requires
        old(store).id_counter < u64::MAX - 4,
    ensures
        r is Err ==> *final(store) == *old(store),
        r is Ok <==> spec_note_target_resolvable(
            old(store).conversations@,
            old(store).messages@,
            view_opt_v(conversation),
            Some(message_id@),
        ),
        r is Ok ==> {
            &&& r->Ok_0.0.source_message_id@ == message_id@
            &&& (conversation is Some ==> r->Ok_0.0.source_conversation_id@
                == conversation->Some_0@)
            &&& r->Ok_0.0.new_conversation_id@ == r->Ok_0.1.id@
            &&& r->Ok_0.1.root_message_id is Some
            &&& r->Ok_0.1.created_at == r->Ok_0.1.updated_at
            &&& r->Ok_0.1.title@ == (match title {
                Some(t) => if spec_trim(t@).len() > 0 {
                    spec_trim(t@)
                } else {
                    "branch-"@ + r->Ok_0.0.source_message_id@
                },
                None => "branch-"@ + r->Ok_0.0.source_message_id@,
            })
            &&& exists|j: int|
                0 <= j < final(store).branches@.len() && #[trigger] final(store).branches@[j]
                    == r->Ok_0.0
            &&& exists|j: int|
                0 <= j < final(store).conversations@.len() && #[trigger] final(
                    store).conversations@[j] == r->Ok_0.1
            &&& (exists|j: int|
                {
                    &&& 0 <= j < old(store).messages@.len()
                    &&& (#[trigger] old(store).messages@[j]).id@ == message_id@
                    &&& (conversation is Some ==> old(store).messages@[j].conversation_id@
                        == conversation->Some_0@)
                    &&& r->Ok_0.0.source_conversation_id@ == old(
                        store).messages@[j].conversation_id@
                    &&& exists|k: int|
                        {
                            &&& 0 <= k < final(store).messages@.len()
                            &&& (#[trigger] final(store).messages@[k]).id@
                                == r->Ok_0.1.root_message_id->Some_0@
                            &&& final(store).messages@[k].conversation_id@ == r->Ok_0.1.id@
                            &&& final(store).messages@[k].created_at == r->Ok_0.1.created_at
                            &&& (final(store).messages@[k] == (MessageRecord {
                                id: r->Ok_0.1.root_message_id->Some_0,
                                conversation_id: r->Ok_0.1.id,
                                parent_id: None,
                                role: old(store).messages@[j].role,
                                content: old(store).messages@[j].content,
                                created_at: r->Ok_0.1.created_at,
                            }) || final(store).messages@[k].role@ == "system"@)
                        }
                })
            &&& (exists|k: int|
                {
                    &&& 0 <= k < final(store).messages@.len()
                    &&& (#[trigger] final(store).messages@[k]).conversation_id@ == r->Ok_0.1.id@
                    &&& final(store).messages@[k].parent_id == r->Ok_0.1.root_message_id
                    &&& final(store).messages@[k].role@ == "system"@
                    &&& final(store).messages@[k].content@ == "Forked from "@
                        + r->Ok_0.0.source_conversation_id@ + ":"@ + r->Ok_0.0.source_message_id@
                    &&& final(store).messages@[k].created_at == r->Ok_0.1.created_at
                })
            &&& (forall|t: int|
                0 <= t < old(store).conversations@.len() ==> (#[trigger] final(
                    store).conversations@[t] == old(store).conversations@[t] || final(
                    store).conversations@[t] == r->Ok_0.1))
            &&& (forall|t: int|
                0 <= t < old(store).messages@.len() ==> (#[trigger] final(store).messages@[t]
                    == old(store).messages@[t] || final(store).messages@[t].conversation_id@
                    == r->Ok_0.1.id@))
            &&& final(store).notes@ == old(store).notes@
            &&& final(store).snapshots@ == old(store).snapshots@
        },
{
    let conversation_ref = match &conversation {
        Some(c) => Some(c.as_str()),
        None => None,
    };
    let (source_conversation, source_message) = match store.find_message(
        message_id,
        conversation_ref,
    ) {
        Ok(pair) => pair,
        Err(e) => {
            return Err(e);
        },
    };
    let now = now_ts();
    let new_conversation_id = store.fresh_id("c");
    let new_title = match title {
        Some(t) => {
            let trimmed = trim(t.as_str());
            if trimmed.as_str().unicode_len() == 0 {
                String::from_str("branch-").concat(source_message.id.as_str())
            } else {
                trimmed
            }
        },
        None => String::from_str("branch-").concat(source_message.id.as_str()),
    };
    let root_message_id = store.fresh_id("m");
    let system_message_id = store.fresh_id("m");
    let branch_id = store.fresh_id("b");

    let root_message = MessageRecord {
        id: root_message_id,
        conversation_id: new_conversation_id.clone(),
        parent_id: None,
        role: source_message.role.clone(),
        content: source_message.content.clone(),
        created_at: now,
    };
    let system_content = String::from_str("Forked from ").concat(
        source_conversation.id.as_str(),
    ).concat(":").concat(source_message.id.as_str());
    let system_message = MessageRecord {
        id: system_message_id,
        conversation_id: new_conversation_id.clone(),
        parent_id: Some(root_message.id.clone()),
        role: String::from_str("system"),
        content: system_content,
        created_at: now,
    };
    let new_conversation = ConversationRecord {
        id: new_conversation_id.clone(),
        title: new_title,
        created_at: now,
        updated_at: now,
        root_message_id: Some(root_message.id.clone()),
    };
    let branch = BranchRecord {
        id: branch_id,
        source_conversation_id: source_conversation.id,
        source_message_id: source_message.id,
        new_conversation_id,
        created_at: now,
    };
    store.save_conversation(&new_conversation);
    let ghost msgs_before = store.messages@;
    store.save_message(&root_message);
    let ghost msgs_mid = store.messages@;
    store.save_message(&system_message);
    store.save_branch(&branch);
    let branch_out = branch.clone();
    let conversation_out = new_conversation.clone();
    proof {
        let j = choose|j: int|
            0 <= j < store.branches@.len() && store.branches@[j] == branch;
        assert(store.branches@[j] == branch_out);
        let t = choose|t: int|
            0 <= t < store.conversations@.len() && store.conversations@[t] == new_conversation;
        assert(store.conversations@[t] == conversation_out);
        let k1 = choose|k1: int|
            0 <= k1 < msgs_mid.len() && msgs_mid[k1] == root_message;
        if msgs_mid[k1] == store.messages@[k1] {
            assert(store.messages@[k1] == root_message);
        } else {
            assert(store.messages@[k1] == root_message || store.messages@[k1] == system_message);
        }
        let k2 = choose|k2: int|
            0 <= k2 < store.messages@.len() && store.messages@[k2] == system_message;
        assert(store.messages@[k2].role@ == "system"@);
        assert(root_message == (MessageRecord {
            id: conversation_out.root_message_id->Some_0,
            conversation_id: conversation_out.id,
            parent_id: None,
            role: source_message.role,
            content: source_message.content,
            created_at: conversation_out.created_at,
        }));
        assert forall|t2: int| 0 <= t2 < msgs_before.len() implies (
        #[trigger] store.messages@[t2] == msgs_before[t2] || store.messages@[t2].conversation_id@
            == conversation_out.id@) by {
            if msgs_mid[t2] != msgs_before[t2] {
                assert(msgs_mid[t2] == root_message);
            }
            if store.messages@[t2] != msgs_mid[t2] {
                assert(store.messages@[t2] == system_message);
            }
        }
    }
    Ok((branch_out, conversation_out))
}

} // verus!

verus! {

/// Sorts strings into the lexicographic order, keeping exactly the same
/// strings.
pub fn sort_strings(rows: &mut Vec<String>)
    ensures
        final(rows)@.to_multiset() == old(rows)@.to_multiset(),
        final(rows)@.len() == old(rows)@.len(),
        forall|i: int, j: int|
            0 <= i < j < final(rows)@.len() ==> !crate::paths::spec_seg_lt(
                final(rows)@[j]@,
                final(rows)@[i]@,
            ),
{
    broadcast use vstd::seq_lib::group_to_multiset_ensures;

    let ghost orig = rows@;
    let mut out: Vec<String> = Vec::new();
    proof {
        assert(out@.to_multiset().add(rows@.to_multiset()) =~= orig.to_multiset());
    }
    while rows.len() > 0
        invariant
            out@.to_multiset().add(rows@.to_multiset()) == orig.to_multiset(),
            out@.len() + rows@.len() == orig.len(),
            forall|i: int, j: int|
                0 <= i < j < out@.len() ==> !crate::paths::spec_seg_lt(out@[j]@, out@[i]@),
            forall|i: int, j: int|
                #![trigger out@[i]@, rows@[j]@]
                0 <= i < out@.len() && 0 <= j < rows@.len() ==> !crate::paths::spec_seg_lt(
                    rows@[j]@,
                    out@[i]@,
                ),
        decreases rows@.len(),
    {
        let mut best: usize = 0;
        proof {
            crate::paths::lemma_seg_lt_irreflexive(rows@[0]@);
        }
        let mut j: usize = 1;
        while j < rows.len()
            invariant
                best < j <= rows@.len(),
                rows@.len() > 0,
                forall|t: int|
                    0 <= t < j ==> !crate::paths::spec_seg_lt(
                        (#[trigger] rows@[t])@,
                        rows@[best as int]@,
                    ),
            decreases rows@.len() - j,
        {
            if crate::paths::seg_cmp(&rows[j], &rows[best]) == -1 {
                let ghost previous = best;
                best = j;
                proof {
                    crate::paths::lemma_seg_lt_irreflexive(rows@[j as int]@);
                    assert forall|t: int| 0 <= t < j + 1 implies !crate::paths::spec_seg_lt(
                        (#[trigger] rows@[t])@,
                        rows@[best as int]@,
                    ) by {
                        if t < j && crate::paths::spec_seg_lt(rows@[t]@, rows@[j as int]@) {
                            crate::paths::lemma_seg_lt_transitive(
                                rows@[t]@,
                                rows@[j as int]@,
                                rows@[previous as int]@,
                            );
                        }
                    }
                }
            }
            j += 1;
        }
        let ghost pre = rows@;
        let picked = rows.remove(best);
        let ghost outpre = out@;
        out.push(picked);
        proof {
            outpre.to_multiset_ensures();
            pre.to_multiset_ensures();
            assert(picked == pre[best as int]);
            assert(out@.to_multiset() == outpre.push(picked).to_multiset());
            assert(outpre.push(picked).to_multiset() =~= outpre.to_multiset().insert(picked));
            assert(rows@.to_multiset() == pre.remove(best as int).to_multiset());
            assert(pre.remove(best as int).to_multiset() =~= pre.to_multiset().remove(
                pre[best as int],
            ));
            assert(pre.to_multiset().count(picked) > 0) by {
                assert(pre.contains(picked));
            }
            assert(out@.to_multiset().add(rows@.to_multiset()) =~= outpre.to_multiset().add(
                pre.to_multiset(),
            ));
            assert forall|t: int| 0 <= t < rows@.len() implies !crate::paths::spec_seg_lt(
                (#[trigger] rows@[t])@,
                out@[out@.len() - 1]@,
            ) by {
                if t < best {
                    assert(rows@[t] == pre[t]);
                } else {
                    assert(rows@[t] == pre[t + 1]);
                }
            }
        }
    }
    proof {
        assert(rows@.to_multiset() =~= vstd::multiset::Multiset::<String>::empty());
        assert(out@.to_multiset() =~= orig.to_multiset());
    }
    let finished = out;
    *rows = finished;
}

/// The parts joined with one space between each pair.
pub open spec fn spec_join_sp(parts: Seq<Seq<char>>) -> Seq<char>
    decreases parts.len(),
{
    if parts.len() == 0 {
        Seq::<char>::empty()
    } else if parts.len() == 1 {
        parts[0]
    } else {
        spec_join_sp(parts.drop_last()) + " "@ + parts.last()
    }
}

fn join_with_spaces(parts: &Vec<String>) -> (r: String)
    ensures
        r@ == spec_join_sp(parts.deep_view()),
{
    let mut out = String::new();
    let mut i: usize = 0;
    proof {
        assert(parts.deep_view().subrange(0, 0) =~= Seq::<Seq<char>>::empty());
    }
    while i < parts.len()
        invariant
            i <= parts@.len(),
            parts.deep_view().len() == parts@.len(),
            out@ == spec_join_sp(parts.deep_view().subrange(0, i as int)),
        decreases parts@.len() - i,
    {
        let ghost pre = parts.deep_view().subrange(0, i as int);
        let ghost post = parts.deep_view().subrange(0, i as int + 1);
        proof {
            assert(post.drop_last() =~= pre);
            assert(post.last() == parts.deep_view()[i as int]);
            assert(parts.deep_view()[i as int] == parts@[i as int]@);
        }
        if i > 0 {
            out.append(" ");
        } else {
            proof {
                assert(pre.len() == 0);
                assert(post.len() == 1);
                assert(spec_join_sp(post) == post[0]);
            }
        }
        out.append(parts[i].as_str());
        i += 1;
    }
    proof {
        assert(parts.deep_view().subrange(0, parts.deep_view().len() as int) =~= parts
            .deep_view());
    }
    out
}

/// The lower-cased haystack a note is searched in: its title, body and
/// space-joined tags.
pub open spec fn spec_note_hay(n: NoteRecord) -> Seq<char> {
    crate::strings::spec_to_lower(
        n.title@ + " "@ + n.body@ + " "@ + spec_join_sp(n.tags.deep_view()),
    )
}

/// The lower-cased haystack a snapshot is searched in: its summary and
/// space-joined outstanding work and risks.
pub open spec fn spec_snapshot_hay(s: SnapshotRecord) -> Seq<char> {
    crate::strings::spec_to_lower(
        s.summary@ + " "@ + spec_join_sp(s.todo.deep_view()) + " "@ + spec_join_sp(
            s.risks.deep_view(),
        ),
    )
}

/// Whether a snapshot passes the search filters: an expected conversation
/// or repository must match when given, with the repository word
/// `current` matching the captured current repository.
pub open spec fn spec_snapshot_passes(
    s: SnapshotRecord,
    conversation: Option<Seq<char>>,
    repo: Option<Seq<char>>,
    current_repo_path: Option<Seq<char>>,
) -> bool {
    &&& (match conversation {
        Some(c) => s.conversation_id@ == c,
        None => true,
    })
    &&& (match repo {
        Some(rp) => {
            let target = if rp == "current"@ {
                current_repo_path
            } else {
                Some(rp)
            };
            match target {
                Some(want) => s.repo_ctx is Some && s.repo_ctx->Some_0.repo_path@ == want,
                None => false,
            }
        },
        None => true,
    })
}

/// Whether a search row faithfully reports one stored record that passes
/// the filters and holds the query.
pub open spec fn spec_search_row_sound(
    row: crate::notes::SearchResultRow,
    notes: Seq<NoteRecord>,
    snapshots: Seq<SnapshotRecord>,
    messages: Seq<MessageRecord>,
    status: Option<Seq<char>>,
    tag: Option<Seq<char>>,
    conversation: Option<Seq<char>>,
    repo: Option<Seq<char>>,
    current_repo_path: Option<Seq<char>>,
    query: Seq<char>,
) -> bool {
    ||| exists|j: int|
        0 <= j < notes.len() && {
            let n = #[trigger] notes[j];
            &&& row.kind@ == "note"@
            &&& spec_note_passes(n, status, tag, conversation, repo, current_repo_path)
            &&& crate::strings::spec_contains_sub(spec_note_hay(n), query)
            &&& row.id == n.id
            &&& row.conversation_id == n.conversation_id
            &&& row.title == n.title
            &&& row.snippet@ == crate::notes::spec_trim_for_table(n.body@, 120)
            &&& row.updated_at == n.updated_at
        }
    ||| exists|j: int|
        0 <= j < snapshots.len() && {
            let sn = #[trigger] snapshots[j];
            &&& row.kind@ == "snapshot"@
            &&& spec_snapshot_passes(sn, conversation, repo, current_repo_path)
            &&& crate::strings::spec_contains_sub(spec_snapshot_hay(sn), query)
            &&& row.id == sn.id
            &&& row.conversation_id == sn.conversation_id
            &&& row.title@ == crate::notes::spec_trim_for_table(sn.summary@, 80)
            &&& row.snippet@ == crate::notes::spec_trim_for_table(sn.summary@, 120)
            &&& row.updated_at == sn.created_at
        }
    ||| exists|j: int|
        0 <= j < messages.len() && {
            let m = #[trigger] messages[j];
            &&& row.kind@ == "message"@
            &&& (match conversation {
                Some(c) => m.conversation_id@ == c,
                None => true,
            })
            &&& crate::strings::spec_contains_sub(
                crate::strings::spec_to_lower(m.content@),
                query,
            )
            &&& row.id == m.id
            &&& row.conversation_id == m.conversation_id
            &&& row.title@ == m.role@ + " message"@
            &&& row.snippet@ == crate::notes::spec_trim_for_table(m.content@, 120)
            &&& row.updated_at == m.created_at
        }
}

/// Searches notes, snapshots and messages for a query word: the query and
/// every haystack fold to lower case before matching, and the row filters
/// behave as in a note listing.  The rows come back newest first, and
/// every row reports one stored record that passes the filters and holds
/// the query.  An empty query is refused.
pub fn search_records(
    store: &NotesStore,
    query: &str,
    status: Option<String>,
    tag: &Option<String>,
    repo: &Option<String>,
    conversation: &Option<String>,
    current_repo_path: &Option<String>,
) -> (r: Result<Vec<crate::notes::SearchResultRow>, NotesError>)
    ensures
        spec_canon_word(query@).len() == 0 <==> (r is Err && r->Err_0 == NotesError::EmptyQuery),
        r is Err && r->Err_0 == NotesError::InvalidStatus <==> (spec_canon_word(query@).len() > 0
            && status is Some && !crate::notes::spec_valid_status(
            spec_canon_word(status->Some_0@),
        )),
        r is Ok ==> forall|i: int, j: int|
            0 <= i < j < r->Ok_0@.len() ==> (#[trigger] r->Ok_0@[i]).updated_at
                >= (#[trigger] r->Ok_0@[j]).updated_at,
        r is Ok ==> forall|i: int|
            0 <= i < r->Ok_0@.len() ==> spec_search_row_sound(
                #[trigger] r->Ok_0@[i],
                store.notes@,
                store.snapshots@,
                store.messages@,
                match status {
                    Some(s) => Some(spec_canon_word(s@)),
                    None => None,
                },
                view_opt(tag),
                view_opt(conversation),
                view_opt(repo),
                view_opt(current_repo_path),
                spec_canon_word(query@),
            ),
        r is Err ==> r->Err_0 == NotesError::EmptyQuery || r->Err_0 == NotesError::InvalidStatus,
{
    let ghost stv: Option<Seq<char>> = match &status {
        Some(s) => Some(spec_canon_word(s@)),
        None => None,
    };
    let ghost tv = view_opt(tag);
    let ghost cv = view_opt(conversation);
    let ghost rv = view_opt(repo);
    let ghost cpv = view_opt(current_repo_path);
    let trimmed = trim(query);
    let folded_query = to_ascii_lower(trimmed.as_str());
    let ghost qv = spec_canon_word(query@);
    if folded_query.as_str().unicode_len() == 0 {
        return Err(NotesError::EmptyQuery);
    }
    let status_canon: Option<String> = match status {
        Some(s) => {
            match normalize_status(s) {
                Ok(canon) => Some(canon),
                Err(e) => {
                    return Err(e);
                },
            }
        },
        None => None,
    };
    proof {
        assert(view_opt(&status_canon) == stv);
    }

    let mut rows: Vec<crate::notes::SearchResultRow> = Vec::new();

    let notes = store.list_notes();
    let mut i: usize = 0;
    while i < notes.len()
        invariant
            i <= notes@.len(),
            notes@.len() == store.notes@.len(),
            crate::notes::notes_all_match(notes@, store.notes@),
            view_opt(&status_canon) == stv,
            tv == view_opt(tag),
            cv == view_opt(conversation),
            rv == view_opt(repo),
            cpv == view_opt(current_repo_path),
            folded_query@ == qv,
            forall|t: int|
                0 <= t < rows@.len() ==> spec_search_row_sound(
                    #[trigger] rows@[t],
                    store.notes@,
                    store.snapshots@,
                    store.messages@,
                    stv,
                    tv,
                    cv,
                    rv,
                    cpv,
                    qv,
                ),
        decreases notes@.len() - i,
    {
        let note = &notes[i];
        let passes = note_passes(
            note,
            &status_canon,
            tag,
            conversation,
            repo,
            current_repo_path,
        );
        if passes {
            let hay = note.title.clone().concat(" ").concat(note.body.as_str()).concat(
                " ",
            ).concat(join_with_spaces(&note.tags).as_str());
            let folded_hay = to_ascii_lower(hay.as_str());
            if crate::strings::contains_sub(folded_hay.as_str(), folded_query.as_str()) {
                let row = crate::notes::SearchResultRow {
                    kind: String::from_str("note"),
                    id: note.id.clone(),
                    conversation_id: note.conversation_id.clone(),
                    title: note.title.clone(),
                    snippet: crate::notes::trim_for_table(note.body.as_str(), 120),
                    updated_at: note.updated_at,
                };
                proof {
                    assert(folded_hay@ == spec_note_hay(notes@[i as int]));
                    assert(crate::notes::note_matched_in(notes@[i as int], store.notes@));
                    let t = choose|t: int|
                        0 <= t < store.notes@.len() && crate::notes::note_matches(
                            notes@[i as int],
                            #[trigger] store.notes@[t],
                        );
                    let sn = store.notes@[t];
                    assert(sn.tags.deep_view() =~= notes@[i as int].tags.deep_view());
                    assert(spec_note_hay(sn) == spec_note_hay(notes@[i as int]));
                    assert(spec_note_passes(sn, stv, tv, cv, rv, cpv));
                    assert(spec_search_row_sound(
                        row,
                        store.notes@,
                        store.snapshots@,
                        store.messages@,
                        stv,
                        tv,
                        cv,
                        rv,
                        cpv,
                        qv,
                    ));
                }
                rows.push(row);
            }
        }
        i += 1;
    }

    let snapshots = store.list_snapshots();
    let mut k: usize = 0;
    while k < snapshots.len()
        invariant
            k <= snapshots@.len(),
            snapshots@.len() == store.snapshots@.len(),
            crate::notes::snapshots_all_match(snapshots@, store.snapshots@),
            cv == view_opt(conversation),
            rv == view_opt(repo),
            cpv == view_opt(current_repo_path),
            folded_query@ == qv,
            forall|t: int|
                0 <= t < rows@.len() ==> spec_search_row_sound(
                    #[trigger] rows@[t],
                    store.notes@,
                    store.snapshots@,
                    store.messages@,
                    stv,
                    tv,
                    cv,
                    rv,
                    cpv,
                    qv,
                ),
        decreases snapshots@.len() - k,
    {
        let snapshot = &snapshots[k];
        let conversation_ok = match conversation {
            Some(c) => str_eq(snapshot.conversation_id.as_str(), c.as_str()),
            None => true,
        };
        let repo_ok = match repo {
            Some(rp) => {
                let target: Option<&String> = if str_eq(rp.as_str(), "current") {
                    match current_repo_path {
                        Some(cp) => Some(cp),
                        None => None,
                    }
                } else {
                    Some(rp)
                };
                match target {
                    Some(want) => {
                        match &snapshot.repo_ctx {
                            Some(ctx) => str_eq(ctx.repo_path.as_str(), want.as_str()),
                            None => false,
                        }
                    },
                    None => false,
                }
            },
            None => true,
        };
        if conversation_ok && repo_ok {
            let hay = snapshot.summary.clone().concat(" ").concat(
                join_with_spaces(&snapshot.todo).as_str(),
            ).concat(" ").concat(join_with_spaces(&snapshot.risks).as_str());
            let folded_hay = to_ascii_lower(hay.as_str());
            if crate::strings::contains_sub(folded_hay.as_str(), folded_query.as_str()) {
                let row = crate::notes::SearchResultRow {
                    kind: String::from_str("snapshot"),
                    id: snapshot.id.clone(),
                    conversation_id: snapshot.conversation_id.clone(),
                    title: crate::notes::trim_for_table(snapshot.summary.as_str(), 80),
                    snippet: crate::notes::trim_for_table(snapshot.summary.as_str(), 120),
                    updated_at: snapshot.created_at,
                };
                proof {
                    assert(spec_snapshot_passes(snapshots@[k as int], cv, rv, cpv));
                    assert(folded_hay@ == spec_snapshot_hay(snapshots@[k as int]));
                    assert(crate::notes::snapshot_matched_in(
                        snapshots@[k as int],
                        store.snapshots@,
                    ));
                    let t = choose|t: int|
                        0 <= t < store.snapshots@.len() && crate::notes::snapshot_matches(
                            snapshots@[k as int],
                            #[trigger] store.snapshots@[t],
                        );
                    let sn = store.snapshots@[t];
                    assert(sn.todo.deep_view() =~= snapshots@[k as int].todo.deep_view());
                    assert(sn.risks.deep_view() =~= snapshots@[k as int].risks.deep_view());
                    assert(spec_snapshot_hay(sn) == spec_snapshot_hay(snapshots@[k as int]));
                    assert(spec_snapshot_passes(sn, cv, rv, cpv));
                    assert(spec_search_row_sound(
                        row,
                        store.notes@,
                        store.snapshots@,
                        store.messages@,
                        stv,
                        tv,
                        cv,
                        rv,
                        cpv,
                        qv,
                    ));
                }
                rows.push(row);
            }
        }
        k += 1;
    }

    let messages = store.list_messages();
    let mut m: usize = 0;
    while m < messages.len()
        invariant
            m <= messages@.len(),
            messages@.to_multiset() == store.messages@.to_multiset(),
            cv == view_opt(conversation),
            folded_query@ == qv,
            forall|t: int|
                0 <= t < rows@.len() ==> spec_search_row_sound(
                    #[trigger] rows@[t],
                    store.notes@,
                    store.snapshots@,
                    store.messages@,
                    stv,
                    tv,
                    cv,
                    rv,
                    cpv,
                    qv,
                ),
        decreases messages@.len() - m,
    {
        let message = &messages[m];
        let conversation_ok = match conversation {
            Some(c) => str_eq(message.conversation_id.as_str(), c.as_str()),
            None => true,
        };
        if conversation_ok {
            let folded_hay = to_ascii_lower(message.content.as_str());
            if crate::strings::contains_sub(folded_hay.as_str(), folded_query.as_str()) {
                let title = message.role.clone().concat(" message");
                let row = crate::notes::SearchResultRow {
                    kind: String::from_str("message"),
                    id: message.id.clone(),
                    conversation_id: message.conversation_id.clone(),
                    title,
                    snippet: crate::notes::trim_for_table(message.content.as_str(), 120),
                    updated_at: message.created_at,
                };
                proof {
                    messages@.to_multiset_ensures();
                    store.messages@.to_multiset_ensures();
                    assert(messages@.contains(messages@[m as int]));
                    assert(messages@.to_multiset().count(messages@[m as int]) > 0);
                    assert(store.messages@.to_multiset().count(messages@[m as int]) > 0);
                    assert(store.messages@.contains(messages@[m as int]));
                    let t = choose|t: int|
                        0 <= t < store.messages@.len() && store.messages@[t] == messages@[
                            m as int
                        ];
                    assert(spec_search_row_sound(
                        row,
                        store.notes@,
                        store.snapshots@,
                        store.messages@,
                        stv,
                        tv,
                        cv,
                        rv,
                        cpv,
                        qv,
                    ));
                }
                rows.push(row);
            }
        }
        m += 1;
    }

    let ghost unsorted = rows@;
    crate::notes::sort_desc_by_key(&mut rows);
    proof {
        unsorted.to_multiset_ensures();
        rows@.to_multiset_ensures();
        assert forall|t: int| 0 <= t < rows@.len() implies spec_search_row_sound(
            #[trigger] rows@[t],
            store.notes@,
            store.snapshots@,
            store.messages@,
            stv,
            tv,
            cv,
            rv,
            cpv,
            qv,
        ) by {
            assert(rows@.contains(rows@[t]));
            assert(rows@.to_multiset().count(rows@[t]) > 0);
            assert(unsorted.to_multiset().count(rows@[t]) > 0);
            assert(unsorted.contains(rows@[t]));
            let u = choose|u: int| 0 <= u < unsorted.len() && unsorted[u] == rows@[t];
            assert(spec_search_row_sound(
                unsorted[u],
                store.notes@,
                store.snapshots@,
                store.messages@,
                stv,
                tv,
                cv,
                rv,
                cpv,
                qv,
            ));
        }
    }
    Ok(rows)
}


} // verus!

verus! {

fn string_list_contains(v: &Vec<String>, x: &str) -> (r: bool)
    ensures
        r == exists|i: int| 0 <= i < v@.len() && #[trigger] v@[i]@ == x@,
{
    let mut i: usize = 0;
    while i < v.len()
        invariant
            i <= v@.len(),
            forall|j: int| 0 <= j < i ==> v@[j]@ != x@,
        decreases v@.len() - i,
    {
        if str_eq(v[i].as_str(), x) {
            proof {
                assert(v@[i as int]@ == x@);
            }
            return true;
        }
        i += 1;
    }
    false
}

/// Whether a conversation is the export root or reachable from it through
/// fork records within the given number of steps.
pub open spec fn spec_branch_reachable(
    branches: Seq<BranchRecord>,
    root: Seq<char>,
    id: Seq<char>,
    fuel: nat,
) -> bool
    decreases fuel,
{
    ||| id == root
    ||| (fuel > 0 && exists|b: int|
        0 <= b < branches.len() && (#[trigger] branches[b]).new_conversation_id@ == id
            && spec_branch_reachable(
            branches,
            root,
            branches[b].source_conversation_id@,
            (fuel - 1) as nat,
        ))
}

/// Reachability only widens with more steps.
pub proof fn lemma_branch_reachable_mono(
    branches: Seq<BranchRecord>,
    root: Seq<char>,
    id: Seq<char>,
    f1: nat,
    f2: nat,
)
    requires
        f1 <= f2,
        spec_branch_reachable(branches, root, id, f1),
    ensures
        spec_branch_reachable(branches, root, id, f2),
    decreases f1,
{
    if id != root {
        let b = choose|b: int|
            0 <= b < branches.len() && (#[trigger] branches[b]).new_conversation_id@ == id
                && spec_branch_reachable(
                branches,
                root,
                branches[b].source_conversation_id@,
                (f1 - 1) as nat,
            );
        lemma_branch_reachable_mono(
            branches,
            root,
            branches[b].source_conversation_id@,
            (f1 - 1) as nat,
            (f2 - 1) as nat,
        );
    }
}

/// The conversations an export covers: the root conversation and, when
/// branches are followed, conversations reachable from it through fork
/// records, in lexical identifier order.  The root is always covered;
/// without branches it is the only entry; with branches the entries are
/// exactly the conversations reachable from the root — every entry is
/// reachable, and everything reachable within as many steps as there are
/// fork records is an entry (a fork chain never needs more steps than
/// that, since a chain revisiting a fork record can be shortened).
pub fn export_conversation_ids(
    store: &NotesStore,
    root_id: &str,
    with_branches: bool,
) -> (ids: Vec<String>)
    ensures
        exists|t: int| 0 <= t < ids.deep_view().len() && ids.deep_view()[t] == root_id@,
        !with_branches ==> ids.deep_view() == seq![root_id@],
        forall|t: int|
            0 <= t < ids.deep_view().len() ==> spec_branch_reachable(
                store.branches@,
                root_id@,
                #[trigger] ids.deep_view()[t],
                ids.deep_view().len() as nat,
            ),
        with_branches ==> forall|id: Seq<char>|
            #[trigger] spec_branch_reachable(
                store.branches@,
                root_id@,
                id,
                store.branches@.len() as nat,
            ) ==> exists|t: int| 0 <= t < ids.deep_view().len() && ids.deep_view()[t] == id,
{
    broadcast use vstd::seq_lib::group_to_multiset_ensures;

    let mut included: Vec<String> = Vec::new();
    included.push(root_id.to_owned());
    proof {
        assert(included.deep_view() =~= seq![root_id@]);
        assert(included.deep_view()[0] == root_id@);
    }
    if with_branches {
        let mut pass: usize = 0;
        proof {
            assert forall|id: Seq<char>|
                #[trigger] spec_branch_reachable(store.branches@, root_id@, id, 0nat)
                    implies exists|t: int|
                0 <= t < included.deep_view().len() && included.deep_view()[t] == id by {
                assert(included.deep_view()[0] == id);
            }
        }
        while pass < store.branches.len()
            invariant
                pass <= store.branches@.len(),
                included.deep_view().len() >= 1,
                forall|t: int|
                    0 <= t < included.deep_view().len() ==> spec_branch_reachable(
                        store.branches@,
                        root_id@,
                        #[trigger] included.deep_view()[t],
                        t as nat,
                    ),
                exists|t: int|
                    0 <= t < included.deep_view().len() && included.deep_view()[t] == root_id@,
                forall|id: Seq<char>|
                    #[trigger] spec_branch_reachable(
                        store.branches@,
                        root_id@,
                        id,
                        pass as nat,
                    ) ==> exists|t: int|
                        0 <= t < included.deep_view().len() && included.deep_view()[t] == id,
            decreases store.branches@.len() - pass,
        {
            let mut i: usize = 0;
            while i < store.branches.len()
                invariant
                    i <= store.branches@.len(),
                    pass < store.branches@.len(),
                    included.deep_view().len() >= 1,
                    forall|t: int|
                        0 <= t < included.deep_view().len() ==> spec_branch_reachable(
                            store.branches@,
                            root_id@,
                            #[trigger] included.deep_view()[t],
                            t as nat,
                        ),
                    exists|t: int|
                        0 <= t < included.deep_view().len() && included.deep_view()[t]
                            == root_id@,
                    forall|id: Seq<char>|
                        #[trigger] spec_branch_reachable(
                            store.branches@,
                            root_id@,
                            id,
                            pass as nat,
                        ) ==> exists|t: int|
                            0 <= t < included.deep_view().len() && included.deep_view()[t]
                                == id,
                    forall|b: int|
                        0 <= b < i && spec_branch_reachable(
                            store.branches@,
                            root_id@,
                            (#[trigger] store.branches@[b]).source_conversation_id@,
                            pass as nat,
                        ) ==> exists|t: int|
                            0 <= t < included.deep_view().len() && included.deep_view()[t]
                                == store.branches@[b].new_conversation_id@,
                decreases store.branches@.len() - i,
            {
                let source_in = string_list_contains(
                    &included,
                    store.branches[i].source_conversation_id.as_str(),
                );
                let child_in = string_list_contains(
                    &included,
                    store.branches[i].new_conversation_id.as_str(),
                );
                if source_in && !child_in {
                    let ghost dv = included.deep_view();
                    let child = store.branches[i].new_conversation_id.clone();
                    proof {
                        let src = choose|src: int|
                            0 <= src < included@.len() && (#[trigger] included@[src])@
                                == store.branches@[i as int].source_conversation_id@;
                        assert(dv[src] == included@[src]@);
                        lemma_branch_reachable_mono(
                            store.branches@,
                            root_id@,
                            store.branches@[i as int].source_conversation_id@,
                            src as nat,
                            (dv.len() - 1) as nat,
                        );
                        assert(spec_branch_reachable(
                            store.branches@,
                            root_id@,
                            store.branches@[i as int].new_conversation_id@,
                            dv.len() as nat,
                        ));
                    }
                    let ghost rt0 = choose|t: int| 0 <= t < dv.len() && dv[t] == root_id@;
                    included.push(child);
                    proof {
                        assert(included.deep_view() =~= dv.push(
                            store.branches@[i as int].new_conversation_id@,
                        ));
                        assert(included.deep_view()[rt0] == root_id@);
                        assert forall|t2: int| 0 <= t2 < dv.len() implies included.deep_view()[t2]
                            == dv[t2] by {}
                    }
                }
                proof {
                    if spec_branch_reachable(
                        store.branches@,
                        root_id@,
                        store.branches@[i as int].source_conversation_id@,
                        pass as nat,
                    ) {
                        assert(exists|t: int|
                            0 <= t < included.deep_view().len() && included.deep_view()[t]
                                == store.branches@[i as int].new_conversation_id@) by {
                            if child_in {
                                let w = choose|w: int|
                                    0 <= w < included@.len() && (#[trigger] included@[w])@
                                        == store.branches@[
                                        i as int
                                    ].new_conversation_id@;
                                assert(included.deep_view()[w]
                                    == store.branches@[i as int].new_conversation_id@);
                            } else {
                                assert(source_in);
                                assert(included.deep_view()[included.deep_view().len() - 1]
                                    == store.branches@[i as int].new_conversation_id@);
                            }
                        }
                    }
                }
                i += 1;
            }
            proof {
                assert forall|id: Seq<char>|
                    #[trigger] spec_branch_reachable(
                        store.branches@,
                        root_id@,
                        id,
                        (pass + 1) as nat,
                    ) implies exists|t: int|
                    0 <= t < included.deep_view().len() && included.deep_view()[t] == id by {
                    if id != root_id@ {
                        let b = choose|b: int|
                            0 <= b < store.branches@.len() && (
                            #[trigger] store.branches@[b]).new_conversation_id@ == id
                                && spec_branch_reachable(
                                store.branches@,
                                root_id@,
                                store.branches@[b].source_conversation_id@,
                                pass as nat,
                            );
                        assert(exists|t: int|
                            0 <= t < included.deep_view().len() && included.deep_view()[t]
                                == store.branches@[b].new_conversation_id@);
                    }
                }
            }
            pass += 1;
        }
    }
    let ghost unsorted = included.deep_view();
    let ghost pre_strings = included@;
    sort_strings(&mut included);
    proof {
        pre_strings.to_multiset_ensures();
        included@.to_multiset_ensures();
        assert(included.deep_view().len() == unsorted.len());
        assert forall|t: int| 0 <= t < included.deep_view().len() implies spec_branch_reachable(
            store.branches@,
            root_id@,
            #[trigger] included.deep_view()[t],
            included.deep_view().len() as nat,
        ) by {
            assert(included@.contains(included@[t]));
            assert(included@.to_multiset().count(included@[t]) > 0);
            assert(pre_strings.to_multiset().count(included@[t]) > 0);
            assert(pre_strings.contains(included@[t]));
            let u = choose|u: int| 0 <= u < pre_strings.len() && pre_strings[u] == included@[t];
            assert(unsorted[u] == included.deep_view()[t]);
            lemma_branch_reachable_mono(
                store.branches@,
                root_id@,
                unsorted[u],
                u as nat,
                included.deep_view().len() as nat,
            );
        }
        if with_branches {
            assert forall|id: Seq<char>|
                #[trigger] spec_branch_reachable(
                    store.branches@,
                    root_id@,
                    id,
                    store.branches@.len() as nat,
                ) implies exists|t: int|
                0 <= t < included.deep_view().len() && included.deep_view()[t] == id by {
                let u = choose|u: int| 0 <= u < unsorted.len() && unsorted[u] == id;
                assert(unsorted[u] == pre_strings[u]@);
                assert(pre_strings.contains(pre_strings[u]));
                assert(pre_strings.to_multiset().count(pre_strings[u]) > 0);
                assert(included@.to_multiset().count(pre_strings[u]) > 0);
                assert(included@.contains(pre_strings[u]));
                let v = choose|v: int|
                    0 <= v < included@.len() && included@[v] == pre_strings[u];
                assert(included.deep_view()[v] == id);
            }
        }
        let rt = choose|rt: int| 0 <= rt < unsorted.len() && unsorted[rt] == root_id@;
        assert(unsorted[rt] == pre_strings[rt]@);
        assert(pre_strings[rt]@ == root_id@);
        assert(pre_strings.contains(pre_strings[rt]));
        assert(pre_strings.to_multiset().count(pre_strings[rt]) > 0);
        assert(included@.to_multiset().count(pre_strings[rt]) > 0);
        assert(included@.contains(pre_strings[rt]));
        let v = choose|v: int| 0 <= v < included@.len() && included@[v] == pre_strings[rt];
        assert(included.deep_view()[v] == root_id@);
        if !with_branches {
            assert(included.deep_view() =~= seq![root_id@]);
        }
    }
    included
}

/// Exports one conversation — and the conversations forked out of it,
/// when asked — as a markdown document: the conversations with their
/// messages in creation order, then the covered notes, then the covered
/// snapshots.  Which conversations the document covers is what
/// [`export_conversation_ids`] states; only the `md` format is supported,
/// and the root conversation must exist.
pub fn export_conversation_markdown(
    store: &NotesStore,
    id: &str,
    format: &str,
    with_branches: bool,
    exported_at: i64,
) -> (r: Result<String, NotesError>)
    requires
        exported_at >= 0,
    ensures
        format@ != "md"@ <==> (r is Err && r->Err_0 == NotesError::UnsupportedFormat),
        r is Err ==> r->Err_0 == NotesError::UnsupportedFormat || r->Err_0
            == NotesError::ConversationNotFound,
        format@ == "md"@ ==> (r is Ok <==> exists|j: int|
            0 <= j < store.conversations@.len() && (#[trigger] store.conversations@[j]).id@
                == id@),
        r is Ok ==> crate::paths::is_seq_prefix("# Conversation Export: "@ + id@, r->Ok_0@),
{
    if !str_eq(format, "md") {
        return Err(NotesError::UnsupportedFormat);
    }
    let root_conversation = match store.load_conversation(id) {
        Ok(c) => c,
        Err(e) => {
            return Err(e);
        },
    };
    let conversation_ids = export_conversation_ids(store, id, with_branches);

    let mut markdown = String::from_str("\n\nTitle: ");
    markdown.append(root_conversation.title.as_str());
    markdown.append("\nExported At: ");
    markdown.append(crate::render::render_i64(exported_at).as_str());
    markdown.append("\nInclude Branches: ");
    if with_branches {
        markdown.append("yes");
    } else {
        markdown.append("no");
    }
    markdown.append("\n\n## Conversations\n\n");
    let mut messages = store.list_messages();
    crate::notes::sort_asc_by_key(&mut messages);

    let mut c: usize = 0;
    while c < conversation_ids.len()
        invariant
            c <= conversation_ids@.len(),
        decreases conversation_ids@.len() - c,
    {
        match store.load_conversation(conversation_ids[c].as_str()) {
            Ok(conversation) => {
                markdown.append("### ");
                markdown.append(conversation.id.as_str());
                markdown.append(" - ");
                markdown.append(conversation.title.as_str());
                markdown.append("\n\n");
                let mut m: usize = 0;
                while m < messages.len()
                    invariant
                        m <= messages@.len(),
                    decreases messages@.len() - m,
                {
                    if str_eq(
                        messages[m].conversation_id.as_str(),
                        conversation.id.as_str(),
                    ) {
                        markdown.append("- [");
                        markdown.append(crate::render::render_i64(
                            messages[m].created_at,
                        ).as_str());
                        markdown.append("] ");
                        markdown.append(messages[m].role.as_str());
                        markdown.append(": ");
                        markdown.append(messages[m].content.as_str());
                        markdown.append("\n");
                    }
                    m += 1;
                }
                markdown.append("\n");
            },
            Err(_) => {
            },
        }
        c += 1;
    }

    markdown.append("## Notes\n\n");
    let notes = store.list_notes();
    let mut n: usize = 0;
    while n < notes.len()
        invariant
            n <= notes@.len(),
        decreases notes@.len() - n,
    {
        if string_list_contains(&conversation_ids, notes[n].conversation_id.as_str()) {
            markdown.append("### ");
            markdown.append(notes[n].id.as_str());
            markdown.append(" - ");
            markdown.append(notes[n].title.as_str());
            markdown.append("\n- conversation: ");
            markdown.append(notes[n].conversation_id.as_str());
            markdown.append("\n- status: ");
            markdown.append(notes[n].status.as_str());
            markdown.append("\n- priority: ");
            markdown.append(notes[n].priority.as_str());
            markdown.append("\n- tags: ");
            if notes[n].tags.len() == 0 {
                markdown.append("(none)");
            } else {
                let mut t: usize = 0;
                while t < notes[n].tags.len()
                    invariant
                        n < notes@.len(),
                        t <= notes@[n as int].tags@.len(),
                    decreases notes@[n as int].tags@.len() - t,
                {
                    if t > 0 {
                        markdown.append(", ");
                    }
                    markdown.append(notes[n].tags[t].as_str());
                    t += 1;
                }
            }
            markdown.append("\n");
            markdown.append(notes[n].body.as_str());
            markdown.append("\n\n");
        }
        n += 1;
    }

    markdown.append("## Snapshots\n\n");
    let snapshots = store.list_snapshots();
    let mut v: usize = 0;
    while v < snapshots.len()
        invariant
            v <= snapshots@.len(),
        decreases snapshots@.len() - v,
    {
        if string_list_contains(&conversation_ids, snapshots[v].conversation_id.as_str()) {
            markdown.append("### ");
            markdown.append(snapshots[v].id.as_str());
            markdown.append("\n- conversation: ");
            markdown.append(snapshots[v].conversation_id.as_str());
            markdown.append("\n- created_at: ");
            markdown.append(crate::render::render_i64(snapshots[v].created_at).as_str());
            markdown.append("\n- summary: ");
            markdown.append(snapshots[v].summary.as_str());
            markdown.append("\n- todo: ");
            if snapshots[v].todo.len() == 0 {
                markdown.append("(none)");
            } else {
                markdown.append(join_with_commas(&snapshots[v].todo).as_str());
            }
            markdown.append("\n- risks: ");
            if snapshots[v].risks.len() == 0 {
                markdown.append("(none)");
            } else {
                markdown.append(join_with_commas(&snapshots[v].risks).as_str());
            }
            markdown.append("\n\n");
        }
        v += 1;
    }
    let ghost header = "# Conversation Export: "@ + id@;
    let mut document = String::from_str("# Conversation Export: ");
    document.append(root_conversation.id.as_str());
    proof {
        assert(root_conversation.id@ == id@);
        assert(document@.subrange(0, header.len() as int) =~= header);
    }
    document.append(markdown.as_str());
    proof {
        assert(document@.subrange(0, header.len() as int) =~= header);
    }
    Ok(document)
}

fn join_with_commas(parts: &Vec<String>) -> (r: String) {
    let mut out = String::new();
    let mut i: usize = 0;
    while i < parts.len()
        invariant
            i <= parts@.len(),
        decreases parts@.len() - i,
    {
        if i > 0 {
            out.append(", ");
        }
        out.append(parts[i].as_str());
        i += 1;
    }
    out
}

/// The indentation of one tree level: two spaces per depth step.
pub open spec fn spec_indent(depth: int) -> Seq<char>
    decreases depth,
{
    if depth <= 0 {
        Seq::<char>::empty()
    } else {
        spec_indent(depth - 1) + "  "@
    }
}

/// The node line the tree shows for one conversation: its identifier and,
/// in parentheses, the first stored title under that identifier — or the
/// identifier again when none is stored.
pub open spec fn spec_tree_node_line(
    conversations: Seq<ConversationRecord>,
    conversation_id: Seq<char>,
    depth: int,
) -> Seq<char> {
    let label = if exists|j: int|
        0 <= j < conversations.len() && (#[trigger] conversations[j]).sid() == conversation_id {
        conversations[choose|j: int|
            {
                &&& 0 <= j < conversations.len()
                &&& (#[trigger] conversations[j]).sid() == conversation_id
                &&& forall|t: int| 0 <= t < j ==> conversations[t].sid() != conversation_id
            }].title@
    } else {
        conversation_id
    };
    spec_indent(depth) + "- "@ + conversation_id + " ("@ + label + ")"@
}

/// Renders the branch tree under one conversation, one line per node,
/// indented by depth; a conversation already on the current path is
/// marked as a cycle and not descended into, and the path set comes back
/// unchanged.  The traversal budget bounds the recursion; a path can
/// visit each fork target at most once, so a budget of one more than the
/// number of fork records never cuts a real traversal short.
pub fn render_branch_tree(
    conversation_id: &str,
    depth: usize,
    seen: &mut Vec<String>,
    conversations: &Vec<ConversationRecord>,
    branches: &Vec<BranchRecord>,
    out: &mut Vec<String>,
    budget: usize,
)
    ensures
        final(out)@.len() >= old(out)@.len(),
        final(out)@.subrange(0, old(out)@.len() as int) == old(out)@,
        final(seen).deep_view() == old(seen).deep_view(),
        budget > 0 ==> {
            &&& final(out)@.len() > old(out)@.len()
            &&& final(out)@[old(out)@.len() as int]@ == spec_tree_node_line(
                conversations@,
                conversation_id@,
                depth as int,
            )
        },
        budget > 0 && (exists|t: int|
            0 <= t < old(seen).deep_view().len() && old(seen).deep_view()[t]
                == conversation_id@) ==> {
            &&& final(out)@.len() == old(out)@.len() + 2
            &&& final(out)@[old(out)@.len() as int + 1]@ == spec_indent(depth as int)
                + "  - [cycle detected]"@
        },
    decreases budget,
{
    if budget == 0 {
        proof {
            assert(out@.subrange(0, out@.len() as int) =~= out@);
        }
        return;
    }
    let mut prefix = String::new();
    let mut d: usize = 0;
    while d < depth
        invariant
            d <= depth,
            prefix@ == spec_indent(d as int),
        decreases depth - d,
    {
        prefix.append("  ");
        d += 1;
    }
    let found = crate::notes::find_index_by_id(conversations, conversation_id);
    let label: String = match found {
        Some(i) => conversations[i].title.clone(),
        None => conversation_id.to_owned(),
    };
    proof {
        match found {
            Some(i) => {
                let j = choose|j: int|
                    {
                        &&& 0 <= j < conversations@.len()
                        &&& (#[trigger] conversations@[j]).sid() == conversation_id@
                        &&& forall|t: int|
                            0 <= t < j ==> conversations@[t].sid() != conversation_id@
                    };
                if j < i {
                    assert(conversations@[j].sid() != conversation_id@);
                }
                if i < j {
                    assert(conversations@[i as int].sid() != conversation_id@);
                }
                assert(j == i);
            },
            None => {
            },
        }
    }
    let mut line = prefix.clone();
    line.append("- ");
    line.append(conversation_id);
    line.append(" (");
    line.append(label.as_str());
    line.append(")");
    proof {
        assert(line@ == spec_tree_node_line(conversations@, conversation_id@, depth as int));
    }
    let ghost entry_out = out@;
    out.push(line);
    proof {
        assert(out@.subrange(0, entry_out.len() as int) =~= entry_out);
    }

    if string_list_contains(seen, conversation_id) {
        let mut cycle_line = prefix;
        cycle_line.append("  - [cycle detected]");
        let ghost mid_out = out@;
        out.push(cycle_line);
        proof {
            assert(out@.subrange(0, entry_out.len() as int) =~= entry_out);
            assert(out@[entry_out.len() as int + 1]@ == spec_indent(depth as int)
                + "  - [cycle detected]"@);
        }
        return;
    }
    proof {
        assert forall|t: int| 0 <= t < seen.deep_view().len() implies seen.deep_view()[t]
            != conversation_id@ by {
            assert(seen.deep_view()[t] == seen@[t]@);
        }
    }
    let ghost entry_seen = seen.deep_view();
    seen.push(conversation_id.to_owned());
    proof {
        assert(seen.deep_view() =~= entry_seen.push(conversation_id@));
    }

    let mut children: Vec<String> = Vec::new();
    let mut i: usize = 0;
    while i < branches.len()
        invariant
            i <= branches@.len(),
        decreases branches@.len() - i,
    {
        if str_eq(branches[i].source_conversation_id.as_str(), conversation_id) {
            children.push(branches[i].new_conversation_id.clone());
        }
        i += 1;
    }
    sort_strings(&mut children);
    let ghost after_node = out@;
    if depth < usize::MAX {
        let mut k: usize = 0;
        while k < children.len()
            invariant
                k <= children@.len(),
                depth < usize::MAX,
                budget >= 1,
                seen.deep_view() == entry_seen.push(conversation_id@),
                out@.len() >= after_node.len(),
                out@.subrange(0, after_node.len() as int) == after_node,
                after_node.len() == entry_out.len() + 1,
                after_node.subrange(0, entry_out.len() as int) == entry_out,
                after_node[entry_out.len() as int]@ == spec_tree_node_line(
                    conversations@,
                    conversation_id@,
                    depth as int,
                ),
            decreases children@.len() - k,
        {
            let ghost before_child = out@;
            render_branch_tree(
                children[k].as_str(),
                depth + 1,
                seen,
                conversations,
                branches,
                out,
                budget - 1,
            );
            proof {
                assert(out@.subrange(0, after_node.len() as int) =~= before_child.subrange(
                    0,
                    after_node.len() as int,
                ));
            }
            k += 1;
        }
    }
    proof {
        assert(out@.subrange(0, entry_out.len() as int) =~= entry_out);
        assert(out@[entry_out.len() as int] == after_node[entry_out.len() as int]) by {
            assert(out@.subrange(0, after_node.len() as int)[entry_out.len() as int]
                == out@[entry_out.len() as int]);
        }
    }
    let ghost seen_before_pop = seen.deep_view();
    let _ = seen.pop();
    proof {
        assert(seen.deep_view() =~= seen_before_pop.drop_last());
        assert(seen_before_pop.drop_last() =~= entry_seen);
    }
}

} // verus!
