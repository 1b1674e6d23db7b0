//! The journaling store: conversations, messages, notes, branches and
//! snapshots, held in memory.
//!
//! The store itself is pure state; reading record files from disk and
//! writing them back is the caller's concern.  Each record kind lives in
//! one list, and the path helpers say which file a record belongs in.

use crate::paths::AbsPath;
use crate::paths::spec_lex_norm;
use crate::strings::spec_to_lower;
use crate::strings::spec_trim;
use crate::strings::str_eq;
use crate::strings::to_ascii_lower;
use crate::strings::trim;
use vstd::prelude::*;
use vstd::multiset::Multiset;
use vstd::seq_lib::group_to_multiset_ensures;

verus! {

/// Why a store operation was refused.
#[derive(Clone, Copy, Debug, PartialEq, Eq, Structural)]
pub enum NotesError {
    WorkspaceNotFound,
    ConversationNotFound,
    MessageNotFound,
    NoteNotFound,
    SnapshotNotFound,
    EmptyTitle,
    EmptyBody,
    EmptyContent,
    EmptySummary,
    EmptyQuery,
    InvalidRole,
    InvalidStatus,
    InvalidPriority,
    UnsupportedFormat,
}

/// The repository context captured alongside a note or snapshot.
#[derive(Debug)]
pub struct RepoContext {
    pub repo_path: String,
    pub git_branch: Option<String>,
    pub git_commit: Option<String>,
    pub related_files: Vec<String>,
}

impl Clone for RepoContext {
    /// Clones the context, keeping every field's value.
    fn clone(&self) -> (r: Self)
        ensures
            r.repo_path == self.repo_path,
            r.git_branch == self.git_branch,
            r.git_commit == self.git_commit,
            r.related_files@ == self.related_files@,
    {
        RepoContext {
            repo_path: self.repo_path.clone(),
            git_branch: match &self.git_branch {
                Some(s) => Some(s.clone()),
                None => None,
            },
            git_commit: match &self.git_commit {
                Some(s) => Some(s.clone()),
                None => None,
            },
            related_files: crate::paths::clone_string_vec(&self.related_files),
        }
    }
}

/// Whether two repository contexts carry the same values.
pub open spec fn repo_ctx_matches(a: RepoContext, b: RepoContext) -> bool {
    &&& a.repo_path == b.repo_path
    &&& a.git_branch == b.git_branch
    &&& a.git_commit == b.git_commit
    &&& a.related_files@ == b.related_files@
}

/// One conversation.
#[derive(Debug)]
pub struct ConversationRecord {
    pub id: String,
    pub title: String,
    pub created_at: i64,
    pub updated_at: i64,
    pub root_message_id: Option<String>,
}

impl Clone for ConversationRecord {
    /// Clones the record, keeping its value.
    fn clone(&self) -> (r: Self)
        ensures
            r == *self,
    {
        ConversationRecord {
            id: self.id.clone(),
            title: self.title.clone(),
            created_at: self.created_at,
            updated_at: self.updated_at,
            root_message_id: match &self.root_message_id {
                Some(s) => Some(s.clone()),
                None => None,
            },
        }
    }
}

/// One message within a conversation.
#[derive(Debug)]
pub struct MessageRecord {
    pub id: String,
    pub conversation_id: String,
    pub parent_id: Option<String>,
    pub role: String,
    pub content: String,
    pub created_at: i64,
}

impl Clone for MessageRecord {
    /// Clones the record, keeping its value.
    fn clone(&self) -> (r: Self)
        ensures
            r == *self,
    {
        MessageRecord {
            id: self.id.clone(),
            conversation_id: self.conversation_id.clone(),
            parent_id: match &self.parent_id {
                Some(s) => Some(s.clone()),
                None => None,
            },
            role: self.role.clone(),
            content: self.content.clone(),
            created_at: self.created_at,
        }
    }
}

/// One note, possibly attached to a message.
#[derive(Debug)]
pub struct NoteRecord {
    pub id: String,
    pub conversation_id: String,
    pub message_id: Option<String>,
    pub title: String,
    pub body: String,
    pub tags: Vec<String>,
    pub status: String,
    pub priority: String,
    pub created_at: i64,
    pub updated_at: i64,
    pub repo_ctx: Option<RepoContext>,
}

/// Whether two note values carry the same visible content.
pub open spec fn note_matches(a: NoteRecord, b: NoteRecord) -> bool {
    &&& a.id == b.id
    &&& a.conversation_id == b.conversation_id
    &&& a.message_id == b.message_id
    &&& a.title == b.title
    &&& a.body == b.body
    &&& a.tags@ == b.tags@
    &&& a.status == b.status
    &&& a.priority == b.priority
    &&& a.created_at == b.created_at
    &&& a.updated_at == b.updated_at
    &&& (a.repo_ctx is Some <==> b.repo_ctx is Some)
    &&& (a.repo_ctx is Some ==> repo_ctx_matches(a.repo_ctx->Some_0, b.repo_ctx->Some_0))
}

impl Clone for NoteRecord {
    /// Clones the record, keeping every field's value.
    fn clone(&self) -> (r: Self)
        ensures
            note_matches(r, *self),
    {
        NoteRecord {
            id: self.id.clone(),
            conversation_id: self.conversation_id.clone(),
            message_id: match &self.message_id {
                Some(s) => Some(s.clone()),
                None => None,
            },
            title: self.title.clone(),
            body: self.body.clone(),
            tags: crate::paths::clone_string_vec(&self.tags),
            status: self.status.clone(),
            priority: self.priority.clone(),
            created_at: self.created_at,
            updated_at: self.updated_at,
            repo_ctx: match &self.repo_ctx {
                Some(c) => Some(c.clone()),
                None => None,
            },
        }
    }
}

/// One fork of a conversation out of a message.
#[derive(Debug)]
pub struct BranchRecord {
    pub id: String,
    pub source_conversation_id: String,
    pub source_message_id: String,
    pub new_conversation_id: String,
    pub created_at: i64,
}

impl Clone for BranchRecord {
    /// Clones the record, keeping its value.
    fn clone(&self) -> (r: Self)
        ensures
            r == *self,
    {
        BranchRecord {
            id: self.id.clone(),
            source_conversation_id: self.source_conversation_id.clone(),
            source_message_id: self.source_message_id.clone(),
            new_conversation_id: self.new_conversation_id.clone(),
            created_at: self.created_at,
        }
    }
}

/// One snapshot of a conversation's state.
#[derive(Debug)]
pub struct SnapshotRecord {
    pub id: String,
    pub conversation_id: String,
    pub summary: String,
    pub todo: Vec<String>,
    pub risks: Vec<String>,
    pub repo_ctx: Option<RepoContext>,
    pub created_at: i64,
}

/// Whether two snapshot values carry the same visible content.
pub open spec fn snapshot_matches(a: SnapshotRecord, b: SnapshotRecord) -> bool {
    &&& a.id == b.id
    &&& a.conversation_id == b.conversation_id
    &&& a.summary == b.summary
    &&& a.todo@ == b.todo@
    &&& a.risks@ == b.risks@
    &&& a.created_at == b.created_at
    &&& (a.repo_ctx is Some <==> b.repo_ctx is Some)
    &&& (a.repo_ctx is Some ==> repo_ctx_matches(a.repo_ctx->Some_0, b.repo_ctx->Some_0))
}

impl Clone for SnapshotRecord {
    /// Clones the record, keeping every field's value.
    fn clone(&self) -> (r: Self)
        ensures
            snapshot_matches(r, *self),
    {
        SnapshotRecord {
            id: self.id.clone(),
            conversation_id: self.conversation_id.clone(),
            summary: self.summary.clone(),
            todo: crate::paths::clone_string_vec(&self.todo),
            risks: crate::paths::clone_string_vec(&self.risks),
            repo_ctx: match &self.repo_ctx {
                Some(c) => Some(c.clone()),
                None => None,
            },
            created_at: self.created_at,
        }
    }
}

/// One row of a search result.
#[derive(Debug)]
pub struct SearchResultRow {
    pub kind: String,
    pub id: String,
    pub conversation_id: String,
    pub title: String,
    pub snippet: String,
    pub updated_at: i64,
}

impl Clone for SearchResultRow {
    /// Clones the row, keeping its value.
    fn clone(&self) -> (r: Self)
        ensures
            r == *self,
    {
        SearchResultRow {
            kind: self.kind.clone(),
            id: self.id.clone(),
            conversation_id: self.conversation_id.clone(),
            title: self.title.clone(),
            snippet: self.snippet.clone(),
            updated_at: self.updated_at,
        }
    }
}

/// Counts of every record kind, as the index file stores them.
#[derive(Clone, Copy, Debug, PartialEq, Eq, Structural)]
pub struct IndexSummary {
    pub version: u32,
    pub generated_at: i64,
    pub conversations: usize,
    pub messages: usize,
    pub notes: usize,
    pub branches: usize,
    pub snapshots: usize,
}

/// A record ordered by one timestamp field.
pub trait TimeKeyed {
    /// The timestamp the record sorts by.
    spec fn skey(&self) -> int;

    /// The timestamp the record sorts by.
    fn key(&self) -> (k: i64)
        ensures
            k as int == self.skey(),
    ;
}

impl TimeKeyed for ConversationRecord {
    open spec fn skey(&self) -> int {
        self.updated_at as int
    }

    fn key(&self) -> (k: i64)
        ensures
            k as int == self.skey(),
    {
        self.updated_at
    }
}

impl TimeKeyed for MessageRecord {
    open spec fn skey(&self) -> int {
        self.created_at as int
    }

    fn key(&self) -> (k: i64)
        ensures
            k as int == self.skey(),
    {
        self.created_at
    }
}

impl TimeKeyed for NoteRecord {
    open spec fn skey(&self) -> int {
        self.updated_at as int
    }

    fn key(&self) -> (k: i64)
        ensures
            k as int == self.skey(),
    {
        self.updated_at
    }
}

impl TimeKeyed for BranchRecord {
    open spec fn skey(&self) -> int {
        self.created_at as int
    }

    fn key(&self) -> (k: i64)
        ensures
            k as int == self.skey(),
    {
        self.created_at
    }
}

impl TimeKeyed for SnapshotRecord {
    open spec fn skey(&self) -> int {
        self.created_at as int
    }

    fn key(&self) -> (k: i64)
        ensures
            k as int == self.skey(),
    {
        self.created_at
    }
}

impl TimeKeyed for SearchResultRow {
    open spec fn skey(&self) -> int {
        self.updated_at as int
    }

    fn key(&self) -> (k: i64)
        ensures
            k as int == self.skey(),
    {
        self.updated_at
    }
}

/// Sorts records by their timestamp, newest first, keeping exactly the
/// same records.
pub fn sort_desc_by_key<R: TimeKeyed>(rows: &mut Vec<R>)
    ensures
        final(rows)@.to_multiset() == old(rows)@.to_multiset(),
        final(rows)@.len() == old(rows)@.len(),
        forall|i: int, j: int|
            0 <= i < j < final(rows)@.len() ==> final(rows)@[i].skey() >= final(rows)@[j].skey(),
{
    broadcast use group_to_multiset_ensures;

    let ghost orig = rows@;
    let mut out: Vec<R> = Vec::new();
    proof {
        assert(out@.to_multiset().add(rows@.to_multiset()) =~= orig.to_multiset());
    }
    while rows.len() > 0
        invariant
            out@.to_multiset().add(rows@.to_multiset()) == orig.to_multiset(),
            out@.len() + rows@.len() == orig.len(),
            forall|i: int, j: int| 0 <= i < j < out@.len() ==> out@[i].skey() >= out@[j].skey(),
            forall|i: int, j: int|
                #![trigger out@[i].skey(), rows@[j].skey()]
                0 <= i < out@.len() && 0 <= j < rows@.len() ==> out@[i].skey()
                    >= rows@[j].skey(),
        decreases rows@.len(),
    {
        let mut best: usize = 0;
        let mut best_key: i64 = rows[0].key();
        let mut j: usize = 1;
        while j < rows.len()
            invariant
                best < j <= rows@.len(),
                rows@.len() > 0,
                best_key as int == rows@[best as int].skey(),
                forall|t: int| 0 <= t < j ==> best_key as int >= #[trigger] rows@[t].skey(),
            decreases rows@.len() - j,
        {
            let k = rows[j].key();
            if k > best_key {
                best = j;
                best_key = k;
            }
            j += 1;
        }
        let ghost pre = rows@;
        let picked = rows.remove(best);
        let ghost outpre = out@;
        out.push(picked);
        proof {
            assert(picked == pre[best as int]);
            assert(rows@ == pre.remove(best as int));
            assert(out@ == outpre.push(picked));
            outpre.to_multiset_ensures();
            pre.to_multiset_ensures();
            assert(out@.to_multiset() == outpre.push(picked).to_multiset());
            assert(outpre.push(picked).to_multiset() =~= outpre.to_multiset().insert(picked));
            assert(rows@.to_multiset() == pre.remove(best as int).to_multiset());
            assert(pre.remove(best as int).to_multiset() =~= pre.to_multiset().remove(
                pre[best as int],
            ));
            assert(pre.to_multiset().count(picked) > 0) by {
                assert(pre.contains(picked));
            }
            assert(out@.to_multiset().add(rows@.to_multiset()) =~= outpre.to_multiset().add(
                pre.to_multiset(),
            ));
            assert forall|t: int| 0 <= t < rows@.len() implies out@[out@.len() - 1].skey()
                >= #[trigger] rows@[t].skey() by {
                if t < best {
                    assert(rows@[t] == pre[t]);
                } else {
                    assert(rows@[t] == pre[t + 1]);
                }
            }
        }
    }
    proof {
        assert(rows@.to_multiset() =~= Multiset::<R>::empty());
        assert(out@.to_multiset() =~= orig.to_multiset());
    }
    let finished = out;
    *rows = finished;
}

/// Sorts records by their timestamp, oldest first, keeping exactly the
/// same records.
pub fn sort_asc_by_key<R: TimeKeyed>(rows: &mut Vec<R>)
    ensures
        final(rows)@.to_multiset() == old(rows)@.to_multiset(),
        final(rows)@.len() == old(rows)@.len(),
        forall|i: int, j: int|
            0 <= i < j < final(rows)@.len() ==> final(rows)@[i].skey() <= final(rows)@[j].skey(),
{
    broadcast use group_to_multiset_ensures;

    let ghost orig = rows@;
    let mut out: Vec<R> = Vec::new();
    proof {
        assert(out@.to_multiset().add(rows@.to_multiset()) =~= orig.to_multiset());
    }
    while rows.len() > 0
        invariant
            out@.to_multiset().add(rows@.to_multiset()) == orig.to_multiset(),
            out@.len() + rows@.len() == orig.len(),
            forall|i: int, j: int| 0 <= i < j < out@.len() ==> out@[i].skey() <= out@[j].skey(),
            forall|i: int, j: int|
                #![trigger out@[i].skey(), rows@[j].skey()]
                0 <= i < out@.len() && 0 <= j < rows@.len() ==> out@[i].skey()
                    <= rows@[j].skey(),
        decreases rows@.len(),
    {
        let mut best: usize = 0;
        let mut best_key: i64 = rows[0].key();
        let mut j: usize = 1;
        while j < rows.len()
            invariant
                best < j <= rows@.len(),
                rows@.len() > 0,
                best_key as int == rows@[best as int].skey(),
                forall|t: int| 0 <= t < j ==> best_key as int <= #[trigger] rows@[t].skey(),
            decreases rows@.len() - j,
        {
            let k = rows[j].key();
            if k < best_key {
                best = j;
                best_key = k;
            }
            j += 1;
        }
        let ghost pre = rows@;
        let picked = rows.remove(best);
        let ghost outpre = out@;
        out.push(picked);
        proof {
            assert(picked == pre[best as int]);
            assert(rows@ == pre.remove(best as int));
            assert(out@ == outpre.push(picked));
            outpre.to_multiset_ensures();
            pre.to_multiset_ensures();
            assert(out@.to_multiset() == outpre.push(picked).to_multiset());
            assert(outpre.push(picked).to_multiset() =~= outpre.to_multiset().insert(picked));
            assert(rows@.to_multiset() == pre.remove(best as int).to_multiset());
            assert(pre.remove(best as int).to_multiset() =~= pre.to_multiset().remove(
                pre[best as int],
            ));
            assert(pre.to_multiset().count(picked) > 0) by {
                assert(pre.contains(picked));
            }
            assert(out@.to_multiset().add(rows@.to_multiset()) =~= outpre.to_multiset().add(
                pre.to_multiset(),
            ));
            assert forall|t: int| 0 <= t < rows@.len() implies out@[out@.len() - 1].skey()
                <= #[trigger] rows@[t].skey() by {
                if t < best {
                    assert(rows@[t] == pre[t]);
                } else {
                    assert(rows@[t] == pre[t + 1]);
                }
            }
        }
    }
    proof {
        assert(rows@.to_multiset() =~= Multiset::<R>::empty());
        assert(out@.to_multiset() =~= orig.to_multiset());
    }
    let finished = out;
    *rows = finished;
}

} // verus!

verus! {

/// The store-format version recorded in the index file.
pub const STORE_VERSION: u32 = 1;

/// A record found by its identifier.
pub trait HasId {
    /// The record's identifier.
    spec fn sid(&self) -> Seq<char>;

    /// The record's identifier.
    fn id_str(&self) -> (r: &String)
        ensures
            r@ == self.sid(),
    ;
}

impl HasId for ConversationRecord {
    open spec fn sid(&self) -> Seq<char> {
        self.id@
    }

    fn id_str(&self) -> (r: &String)
        ensures
            r@ == self.sid(),
    {
        &self.id
    }
}

impl HasId for MessageRecord {
    open spec fn sid(&self) -> Seq<char> {
        self.id@
    }

    fn id_str(&self) -> (r: &String)
        ensures
            r@ == self.sid(),
    {
        &self.id
    }
}

impl HasId for NoteRecord {
    open spec fn sid(&self) -> Seq<char> {
        self.id@
    }

    fn id_str(&self) -> (r: &String)
        ensures
            r@ == self.sid(),
    {
        &self.id
    }
}

impl HasId for BranchRecord {
    open spec fn sid(&self) -> Seq<char> {
        self.id@
    }

    fn id_str(&self) -> (r: &String)
        ensures
            r@ == self.sid(),
    {
        &self.id
    }
}

impl HasId for SnapshotRecord {
    open spec fn sid(&self) -> Seq<char> {
        self.id@
    }

    fn id_str(&self) -> (r: &String)
        ensures
            r@ == self.sid(),
    {
        &self.id
    }
}

/// Finds the first record with the given identifier.
pub fn find_index_by_id<R: HasId>(rows: &Vec<R>, id: &str) -> (r: Option<usize>)
    ensures
        r is Some ==> {
            &&& r->Some_0 < rows@.len()
            &&& rows@[r->Some_0 as int].sid() == id@
            &&& forall|j: int| 0 <= j < r->Some_0 ==> rows@[j].sid() != id@
        },
        r is None ==> forall|j: int| 0 <= j < rows@.len() ==> rows@[j].sid() != id@,
{
    let mut i: usize = 0;
    while i < rows.len()
        invariant
            i <= rows@.len(),
            forall|j: int| 0 <= j < i ==> rows@[j].sid() != id@,
        decreases rows@.len() - i,
    {
        if str_eq(rows[i].id_str().as_str(), id) {
            return Some(i);
        }
        i += 1;
    }
    None
}

/// Inserts a record, replacing the first stored record with the same
/// identifier if one exists, appending otherwise.
pub fn upsert_by_id<R: HasId>(rows: &mut Vec<R>, rec: R)
    ensures
        (forall|j: int| 0 <= j < old(rows)@.len() ==> old(rows)@[j].sid() != rec.sid()) ==> (final(
            rows)@ == old(rows)@.push(rec)),
        (exists|j: int| 0 <= j < old(rows)@.len() && old(rows)@[j].sid() == rec.sid())
            ==> exists|j: int|
            {
                &&& 0 <= j < old(rows)@.len()
                &&& old(rows)@[j].sid() == rec.sid()
                &&& (forall|t: int| 0 <= t < j ==> old(rows)@[t].sid() != rec.sid())
                &&& final(rows)@ == old(rows)@.update(j, rec)
            },
{
    let id = rec.id_str().clone();
    match find_index_by_id(rows, id.as_str()) {
        Some(i) => {
            rows.set(i, rec);
        },
        None => {
            rows.push(rec);
        },
    }
}

/// The journaling store: every record kind, in memory, with the
/// workspace root its files belong under and the counter its fresh
/// identifiers use.
#[derive(Debug)]
pub struct NotesStore {
    pub root: AbsPath,
    pub conversations: Vec<ConversationRecord>,
    pub messages: Vec<MessageRecord>,
    pub notes: Vec<NoteRecord>,
    pub branches: Vec<BranchRecord>,
    pub snapshots: Vec<SnapshotRecord>,
    pub id_counter: u64,
}

impl NotesStore {
    /// An empty store rooted in the given workspace, under its notes
    /// directory.
    pub fn new(workspace: AbsPath) -> (store: NotesStore)
        ensures
            store.root@ == spec_lex_norm(workspace@ + seq![".codex-notes"@]),
            store.conversations@.len() == 0,
            store.messages@.len() == 0,
            store.notes@.len() == 0,
            store.branches@.len() == 0,
            store.snapshots@.len() == 0,
            store.id_counter == 0,
    {
        let mut seg: Vec<String> = Vec::new();
        seg.push(String::from_str(".codex-notes"));
        proof {
            assert(seg.deep_view() =~= seq![".codex-notes"@]);
        }
        let root = workspace.join_under(&seg);
        NotesStore {
            root,
            conversations: Vec::new(),
            messages: Vec::new(),
            notes: Vec::new(),
            branches: Vec::new(),
            snapshots: Vec::new(),
            id_counter: 0,
        }
    }

    fn record_path(&self, dir: &str, id: &str) -> (r: AbsPath)
        ensures
            r@ == spec_lex_norm(self.root@ + seq![dir@, id@ + ".json"@]),
    {
        let filename = id.to_owned().concat(".json");
        let mut segs: Vec<String> = Vec::new();
        segs.push(dir.to_owned());
        segs.push(filename);
        proof {
            assert(segs.deep_view() =~= seq![dir@, id@ + ".json"@]);
        }
        self.root.join_under(&segs)
    }

    /// The file a conversation record lives in.
    pub fn conversation_path(&self, id: &str) -> (r: AbsPath)
        ensures
            r@ == spec_lex_norm(self.root@ + seq!["conversations"@, id@ + ".json"@]),
    {
        self.record_path("conversations", id)
    }

    /// The file a message record lives in.
    pub fn message_path(&self, id: &str) -> (r: AbsPath)
        ensures
            r@ == spec_lex_norm(self.root@ + seq!["messages"@, id@ + ".json"@]),
    {
        self.record_path("messages", id)
    }

    /// The file a note record lives in.
    pub fn note_path(&self, id: &str) -> (r: AbsPath)
        ensures
            r@ == spec_lex_norm(self.root@ + seq!["notes"@, id@ + ".json"@]),
    {
        self.record_path("notes", id)
    }

    /// The file a branch record lives in.
    pub fn branch_path(&self, id: &str) -> (r: AbsPath)
        ensures
            r@ == spec_lex_norm(self.root@ + seq!["branches"@, id@ + ".json"@]),
    {
        self.record_path("branches", id)
    }

    /// The file a snapshot record lives in.
    pub fn snapshot_path(&self, id: &str) -> (r: AbsPath)
        ensures
            r@ == spec_lex_norm(self.root@ + seq!["snapshots"@, id@ + ".json"@]),
    {
        self.record_path("snapshots", id)
    }

    /// The file the index summary lives in.
    pub fn index_path(&self) -> (r: AbsPath)
        ensures
            r@ == spec_lex_norm(self.root@ + seq!["index.json"@]),
    {
        let mut segs: Vec<String> = Vec::new();
        segs.push(String::from_str("index.json"));
        proof {
            assert(segs.deep_view() =~= seq!["index.json"@]);
        }
        self.root.join_under(&segs)
    }

    /// The directory exports are written under.
    pub fn exports_dir(&self) -> (r: AbsPath)
        ensures
            r@ == spec_lex_norm(self.root@ + seq!["exports"@]),
    {
        let mut segs: Vec<String> = Vec::new();
        segs.push(String::from_str("exports"));
        proof {
            assert(segs.deep_view() =~= seq!["exports"@]);
        }
        self.root.join_under(&segs)
    }

    /// Stores a conversation, replacing a stored one with the same
    /// identifier.
    pub fn save_conversation(&mut self, conversation: &ConversationRecord)
        ensures
            (forall|j: int|
                0 <= j < old(self).conversations@.len() ==> old(self).conversations@[j].sid()
                    != conversation.id@) ==> final(self).conversations@ == old(
                self,
            ).conversations@.push(*conversation),
            (exists|j: int|
                0 <= j < old(self).conversations@.len() && old(self).conversations@[j].sid()
                    == conversation.id@) ==> exists|j: int|
                {
                    &&& 0 <= j < old(self).conversations@.len()
                    &&& old(self).conversations@[j].sid() == conversation.id@
                    &&& (forall|t: int|
                        0 <= t < j ==> old(self).conversations@[t].sid() != conversation.id@)
                    &&& final(self).conversations@ == old(self).conversations@.update(
                        j,
                        *conversation,
                    )
                },
            final(self).conversations@.len() >= old(self).conversations@.len(),
            final(self).messages@ == old(self).messages@,
            final(self).notes@ == old(self).notes@,
            final(self).branches@ == old(self).branches@,
            final(self).snapshots@ == old(self).snapshots@,
            final(self).root@ == old(self).root@,
            final(self).id_counter == old(self).id_counter,
            exists|j: int|
                0 <= j < final(self).conversations@.len() && final(self).conversations@[j]
                    == *conversation,
    {
        let ghost pre = self.conversations@;
        upsert_by_id(&mut self.conversations, conversation.clone());
        proof {
            if forall|j: int| 0 <= j < pre.len() ==> pre[j].sid() != conversation.id@ {
                assert(final(self).conversations@[pre.len() as int] == *conversation);
            } else {
                let j = choose|j: int|
                    {
                        &&& 0 <= j < pre.len()
                        &&& pre[j].sid() == conversation.id@
                        &&& (forall|t: int| 0 <= t < j ==> pre[t].sid() != conversation.id@)
                        &&& self.conversations@ == pre.update(j, *conversation)
                    };
                assert(self.conversations@[j] == *conversation);
            }
        }
    }

    /// Stores a message, replacing a stored one with the same identifier.
    pub fn save_message(&mut self, message: &MessageRecord)
        ensures
            (forall|j: int|
                0 <= j < old(self).messages@.len() ==> old(self).messages@[j].sid()
                    != message.id@) ==> final(self).messages@ == old(self).messages@.push(
                *message,
            ),
            (exists|j: int|
                0 <= j < old(self).messages@.len() && old(self).messages@[j].sid()
                    == message.id@) ==> exists|j: int|
                {
                    &&& 0 <= j < old(self).messages@.len()
                    &&& old(self).messages@[j].sid() == message.id@
                    &&& (forall|t: int|
                        0 <= t < j ==> old(self).messages@[t].sid() != message.id@)
                    &&& final(self).messages@ == old(self).messages@.update(j, *message)
                },
            final(self).messages@.len() >= old(self).messages@.len(),
            final(self).conversations@ == old(self).conversations@,
            final(self).notes@ == old(self).notes@,
            final(self).branches@ == old(self).branches@,
            final(self).snapshots@ == old(self).snapshots@,
            final(self).root@ == old(self).root@,
            final(self).id_counter == old(self).id_counter,
            exists|j: int|
                0 <= j < final(self).messages@.len() && final(self).messages@[j] == *message,
    {
        let ghost pre = self.messages@;
        upsert_by_id(&mut self.messages, message.clone());
        proof {
            if forall|j: int| 0 <= j < pre.len() ==> pre[j].sid() != message.id@ {
                assert(self.messages@[pre.len() as int] == *message);
            } else {
                let j = choose|j: int|
                    {
                        &&& 0 <= j < pre.len()
                        &&& pre[j].sid() == message.id@
                        &&& (forall|t: int| 0 <= t < j ==> pre[t].sid() != message.id@)
                        &&& self.messages@ == pre.update(j, *message)
                    };
                assert(self.messages@[j] == *message);
            }
        }
    }

    /// Stores a note, replacing a stored one with the same identifier.
    pub fn save_note(&mut self, note: &NoteRecord)
        ensures
            (forall|j: int|
                0 <= j < old(self).notes@.len() ==> old(self).notes@[j].sid() != note.id@) ==> {
                &&& final(self).notes@.len() == old(self).notes@.len() + 1
                &&& note_matches(final(self).notes@[old(self).notes@.len() as int], *note)
                &&& forall|t: int|
                    0 <= t < old(self).notes@.len() ==> final(self).notes@[t] == old(
                        self).notes@[t]
            },
            (exists|j: int|
                0 <= j < old(self).notes@.len() && old(self).notes@[j].sid() == note.id@)
                ==> exists|j: int|
                {
                    &&& 0 <= j < old(self).notes@.len()
                    &&& old(self).notes@[j].sid() == note.id@
                    &&& (forall|t: int| 0 <= t < j ==> old(self).notes@[t].sid() != note.id@)
                    &&& final(self).notes@.len() == old(self).notes@.len()
                    &&& note_matches(final(self).notes@[j], *note)
                    &&& forall|t: int|
                        0 <= t < old(self).notes@.len() && t != j ==> (final(self).notes@[t]
                            == old(self).notes@[t])
                },
            final(self).notes@.len() >= old(self).notes@.len(),
            final(self).conversations@ == old(self).conversations@,
            final(self).messages@ == old(self).messages@,
            final(self).branches@ == old(self).branches@,
            final(self).snapshots@ == old(self).snapshots@,
            final(self).root@ == old(self).root@,
            final(self).id_counter == old(self).id_counter,
            exists|j: int|
                0 <= j < final(self).notes@.len() && note_matches(
                    #[trigger] final(self).notes@[j],
                    *note,
                ),
    {
        let ghost pre = self.notes@;
        let copied = note.clone();
        let ghost copied_g = copied;
        upsert_by_id(&mut self.notes, copied);
        proof {
            if forall|j: int| 0 <= j < pre.len() ==> pre[j].sid() != copied_g.sid() {
                assert(self.notes@[pre.len() as int] == copied_g);
            } else {
                let j = choose|j: int|
                    {
                        &&& 0 <= j < pre.len()
                        &&& pre[j].sid() == copied_g.sid()
                        &&& (forall|t: int| 0 <= t < j ==> pre[t].sid() != copied_g.sid())
                        &&& self.notes@ == pre.update(j, copied_g)
                    };
                assert(self.notes@[j] == copied_g);
            }
        }
    }

    /// Stores a branch, replacing a stored one with the same identifier.
    pub fn save_branch(&mut self, branch: &BranchRecord)
        ensures
            (forall|j: int|
                0 <= j < old(self).branches@.len() ==> old(self).branches@[j].sid()
                    != branch.id@) ==> final(self).branches@ == old(self).branches@.push(*branch),
            (exists|j: int|
                0 <= j < old(self).branches@.len() && old(self).branches@[j].sid()
                    == branch.id@) ==> exists|j: int|
                {
                    &&& 0 <= j < old(self).branches@.len()
                    &&& old(self).branches@[j].sid() == branch.id@
                    &&& (forall|t: int| 0 <= t < j ==> old(self).branches@[t].sid() != branch.id@)
                    &&& final(self).branches@ == old(self).branches@.update(j, *branch)
                },
            final(self).branches@.len() >= old(self).branches@.len(),
            final(self).conversations@ == old(self).conversations@,
            final(self).messages@ == old(self).messages@,
            final(self).notes@ == old(self).notes@,
            final(self).snapshots@ == old(self).snapshots@,
            final(self).root@ == old(self).root@,
            final(self).id_counter == old(self).id_counter,
            exists|j: int|
                0 <= j < final(self).branches@.len() && final(self).branches@[j] == *branch,
    {
        let ghost pre = self.branches@;
        upsert_by_id(&mut self.branches, branch.clone());
        proof {
            if forall|j: int| 0 <= j < pre.len() ==> pre[j].sid() != branch.id@ {
                assert(self.branches@[pre.len() as int] == *branch);
            } else {
                let j = choose|j: int|
                    {
                        &&& 0 <= j < pre.len()
                        &&& pre[j].sid() == branch.id@
                        &&& (forall|t: int| 0 <= t < j ==> pre[t].sid() != branch.id@)
                        &&& self.branches@ == pre.update(j, *branch)
                    };
                assert(self.branches@[j] == *branch);
            }
        }
    }

    /// Stores a snapshot, replacing a stored one with the same
    /// identifier.
    pub fn save_snapshot(&mut self, snapshot: &SnapshotRecord)
        ensures
            (forall|j: int|
                0 <= j < old(self).snapshots@.len() ==> old(self).snapshots@[j].sid()
                    != snapshot.id@) ==> {
                &&& final(self).snapshots@.len() == old(self).snapshots@.len() + 1
                &&& snapshot_matches(
                    final(self).snapshots@[old(self).snapshots@.len() as int],
                    *snapshot,
                )
                &&& forall|t: int|
                    0 <= t < old(self).snapshots@.len() ==> final(self).snapshots@[t] == old(
                        self).snapshots@[t]
            },
            (exists|j: int|
                0 <= j < old(self).snapshots@.len() && old(self).snapshots@[j].sid()
                    == snapshot.id@) ==> exists|j: int|
                {
                    &&& 0 <= j < old(self).snapshots@.len()
                    &&& old(self).snapshots@[j].sid() == snapshot.id@
                    &&& (forall|t: int|
                        0 <= t < j ==> old(self).snapshots@[t].sid() != snapshot.id@)
                    &&& final(self).snapshots@.len() == old(self).snapshots@.len()
                    &&& snapshot_matches(final(self).snapshots@[j], *snapshot)
                    &&& forall|t: int|
                        0 <= t < old(self).snapshots@.len() && t != j ==> final(
                            self).snapshots@[t] == old(self).snapshots@[t]
                },
            final(self).snapshots@.len() >= old(self).snapshots@.len(),
            final(self).conversations@ == old(self).conversations@,
            final(self).messages@ == old(self).messages@,
            final(self).notes@ == old(self).notes@,
            final(self).branches@ == old(self).branches@,
            final(self).root@ == old(self).root@,
            final(self).id_counter == old(self).id_counter,
            exists|j: int|
                0 <= j < final(self).snapshots@.len() && snapshot_matches(
                    #[trigger] final(self).snapshots@[j],
                    *snapshot,
                ),
    {
        let ghost pre = self.snapshots@;
        let copied = snapshot.clone();
        let ghost copied_g = copied;
        upsert_by_id(&mut self.snapshots, copied);
        proof {
            if forall|j: int| 0 <= j < pre.len() ==> pre[j].sid() != copied_g.sid() {
                assert(self.snapshots@[pre.len() as int] == copied_g);
            } else {
                let j = choose|j: int|
                    {
                        &&& 0 <= j < pre.len()
                        &&& pre[j].sid() == copied_g.sid()
                        &&& (forall|t: int| 0 <= t < j ==> pre[t].sid() != copied_g.sid())
                        &&& self.snapshots@ == pre.update(j, copied_g)
                    };
                assert(self.snapshots@[j] == copied_g);
            }
        }
    }

    /// Loads the conversation with the given identifier.
    pub fn load_conversation(&self, id: &str) -> (r: Result<ConversationRecord, NotesError>)
        ensures
            r is Ok <==> exists|j: int|
                0 <= j < self.conversations@.len() && (#[trigger] self.conversations@[j]).sid()
                    == id@,
            r is Ok ==> exists|j: int|
                {
                    &&& 0 <= j < self.conversations@.len()
                    &&& #[trigger] self.conversations@[j] == r->Ok_0
                    &&& self.conversations@[j].sid() == id@
                    &&& forall|t: int| 0 <= t < j ==> self.conversations@[t].sid() != id@
                },
            r is Ok ==> r->Ok_0.id@ == id@,
            r is Err ==> r->Err_0 == NotesError::ConversationNotFound,
    {
        match find_index_by_id(&self.conversations, id) {
            Some(i) => {
                let rec = self.conversations[i].clone();
                proof {
                    assert(self.conversations@[i as int] == rec);
                }
                Ok(rec)
            },
            None => Err(NotesError::ConversationNotFound),
        }
    }

    /// Loads the note with the given identifier.
    pub fn load_note(&self, id: &str) -> (r: Result<NoteRecord, NotesError>)
        ensures
            r is Ok <==> exists|j: int|
                0 <= j < self.notes@.len() && (#[trigger] self.notes@[j]).sid() == id@,
            r is Ok ==> exists|j: int|
                0 <= j < self.notes@.len() && note_matches(#[trigger] self.notes@[j], r->Ok_0),
            r is Ok ==> r->Ok_0.id@ == id@,
            r is Err ==> r->Err_0 == NotesError::NoteNotFound,
    {
        match find_index_by_id(&self.notes, id) {
            Some(i) => {
                let rec = self.notes[i].clone();
                proof {
                    assert(note_matches(self.notes@[i as int], rec));
                }
                Ok(rec)
            },
            None => Err(NotesError::NoteNotFound),
        }
    }

    /// Loads the snapshot with the given identifier.
    pub fn load_snapshot(&self, id: &str) -> (r: Result<SnapshotRecord, NotesError>)
        ensures
            r is Ok <==> exists|j: int|
                0 <= j < self.snapshots@.len() && (#[trigger] self.snapshots@[j]).sid() == id@,
            r is Ok ==> exists|j: int|
                0 <= j < self.snapshots@.len() && snapshot_matches(
                    #[trigger] self.snapshots@[j],
                    r->Ok_0,
                ),
            r is Ok ==> r->Ok_0.id@ == id@,
            r is Err ==> r->Err_0 == NotesError::SnapshotNotFound,
    {
        match find_index_by_id(&self.snapshots, id) {
            Some(i) => {
                let rec = self.snapshots[i].clone();
                proof {
                    assert(snapshot_matches(self.snapshots@[i as int], rec));
                }
                Ok(rec)
            },
            None => Err(NotesError::SnapshotNotFound),
        }
    }
}

} // verus!

verus! {


/// Whether some stored note matches the given one.
pub open spec fn note_matched_in(x: NoteRecord, stored: Seq<NoteRecord>) -> bool {
    exists|j: int| 0 <= j < stored.len() && note_matches(x, #[trigger] stored[j])
}

/// Every row matches some stored note.
pub open spec fn notes_all_match(r: Seq<NoteRecord>, stored: Seq<NoteRecord>) -> bool {
    forall|i: int| 0 <= i < r.len() ==> note_matched_in(#[trigger] r[i], stored)
}

/// Whether some stored snapshot matches the given one.
pub open spec fn snapshot_matched_in(x: SnapshotRecord, stored: Seq<SnapshotRecord>) -> bool {
    exists|j: int| 0 <= j < stored.len() && snapshot_matches(x, #[trigger] stored[j])
}

/// Every row matches some stored snapshot.
pub open spec fn snapshots_all_match(r: Seq<SnapshotRecord>, stored: Seq<SnapshotRecord>) -> bool {
    forall|i: int| 0 <= i < r.len() ==> snapshot_matched_in(#[trigger] r[i], stored)
}

fn clone_conversations(v: &Vec<ConversationRecord>) -> (r: Vec<ConversationRecord>)
    ensures
        r@ == v@,
{
    let mut r: Vec<ConversationRecord> = Vec::new();
    let mut i: usize = 0;
    while i < v.len()
        invariant
            i <= v@.len(),
            r@ == v@.subrange(0, i as int),
        decreases v@.len() - i,
    {
        r.push(v[i].clone());
        proof {
            assert(r@ =~= v@.subrange(0, i as int + 1));
        }
        i += 1;
    }
    proof {
        assert(v@.subrange(0, v@.len() as int) =~= v@);
    }
    r
}

fn clone_messages(v: &Vec<MessageRecord>) -> (r: Vec<MessageRecord>)
    ensures
        r@ == v@,
{
    let mut r: Vec<MessageRecord> = Vec::new();
    let mut i: usize = 0;
    while i < v.len()
        invariant
            i <= v@.len(),
            r@ == v@.subrange(0, i as int),
        decreases v@.len() - i,
    {
        r.push(v[i].clone());
        proof {
            assert(r@ =~= v@.subrange(0, i as int + 1));
        }
        i += 1;
    }
    proof {
        assert(v@.subrange(0, v@.len() as int) =~= v@);
    }
    r
}

fn clone_branches(v: &Vec<BranchRecord>) -> (r: Vec<BranchRecord>)
    ensures
        r@ == v@,
{
    let mut r: Vec<BranchRecord> = Vec::new();
    let mut i: usize = 0;
    while i < v.len()
        invariant
            i <= v@.len(),
            r@ == v@.subrange(0, i as int),
        decreases v@.len() - i,
    {
        r.push(v[i].clone());
        proof {
            assert(r@ =~= v@.subrange(0, i as int + 1));
        }
        i += 1;
    }
    proof {
        assert(v@.subrange(0, v@.len() as int) =~= v@);
    }
    r
}

fn clone_notes(v: &Vec<NoteRecord>) -> (r: Vec<NoteRecord>)
    ensures
        r@.len() == v@.len(),
        forall|i: int| 0 <= i < v@.len() ==> note_matches(#[trigger] r@[i], v@[i]),
{
    let mut r: Vec<NoteRecord> = Vec::new();
    let mut i: usize = 0;
    while i < v.len()
        invariant
            i <= v@.len(),
            r@.len() == i,
            forall|j: int| 0 <= j < i ==> note_matches(#[trigger] r@[j], v@[j]),
        decreases v@.len() - i,
    {
        r.push(v[i].clone());
        i += 1;
    }
    r
}

fn clone_snapshots(v: &Vec<SnapshotRecord>) -> (r: Vec<SnapshotRecord>)
    ensures
        r@.len() == v@.len(),
        forall|i: int| 0 <= i < v@.len() ==> snapshot_matches(#[trigger] r@[i], v@[i]),
{
    let mut r: Vec<SnapshotRecord> = Vec::new();
    let mut i: usize = 0;
    while i < v.len()
        invariant
            i <= v@.len(),
            r@.len() == i,
            forall|j: int| 0 <= j < i ==> snapshot_matches(#[trigger] r@[j], v@[j]),
        decreases v@.len() - i,
    {
        r.push(v[i].clone());
        i += 1;
    }
    r
}

impl NotesStore {
    /// The stored conversations, most recently updated first.
    pub fn list_conversations(&self) -> (r: Vec<ConversationRecord>)
        ensures
            r@.to_multiset() == self.conversations@.to_multiset(),
            r@.len() == self.conversations@.len(),
            forall|i: int, j: int|
                0 <= i < j < r@.len() ==> r@[i].updated_at >= r@[j].updated_at,
    {
        let mut rows = clone_conversations(&self.conversations);
        sort_desc_by_key(&mut rows);
        rows
    }

    /// The stored messages, newest first.
    pub fn list_messages(&self) -> (r: Vec<MessageRecord>)
        ensures
            r@.to_multiset() == self.messages@.to_multiset(),
            r@.len() == self.messages@.len(),
            forall|i: int, j: int|
                0 <= i < j < r@.len() ==> r@[i].created_at >= r@[j].created_at,
    {
        let mut rows = clone_messages(&self.messages);
        sort_desc_by_key(&mut rows);
        rows
    }

    /// The stored notes, most recently updated first: the same notes by
    /// content, in both directions.
    pub fn list_notes(&self) -> (r: Vec<NoteRecord>)
        ensures
            r@.len() == self.notes@.len(),
            forall|i: int, j: int|
                0 <= i < j < r@.len() ==> r@[i].updated_at >= r@[j].updated_at,
            notes_all_match(r@, self.notes@),
            notes_all_match(self.notes@, r@),
    {
        let mut rows = clone_notes(&self.notes);
        let ghost cloned = rows@;
        sort_desc_by_key(&mut rows);
        proof {
            cloned.to_multiset_ensures();
            rows@.to_multiset_ensures();
            assert forall|i: int| 0 <= i < rows@.len() implies note_matched_in(
                #[trigger] rows@[i],
                self.notes@,
            ) by {
                assert(rows@.to_multiset().count(rows@[i]) > 0) by {
                    assert(rows@.contains(rows@[i]));
                }
                assert(cloned.to_multiset().count(rows@[i]) > 0);
                assert(cloned.contains(rows@[i]));
                let k = choose|k: int| 0 <= k < cloned.len() && cloned[k] == rows@[i];
                assert(note_matches(cloned[k], self.notes@[k]));
                assert(note_matches(rows@[i], self.notes@[k]));
            }
            assert(notes_all_match(rows@, self.notes@));
            assert forall|t: int| 0 <= t < self.notes@.len() implies note_matched_in(
                #[trigger] self.notes@[t],
                rows@,
            ) by {
                assert(note_matches(cloned[t], self.notes@[t]));
                assert(cloned.contains(cloned[t]));
                assert(cloned.to_multiset().count(cloned[t]) > 0);
                assert(rows@.to_multiset().count(cloned[t]) > 0);
                assert(rows@.contains(cloned[t]));
                let u = choose|u: int| 0 <= u < rows@.len() && rows@[u] == cloned[t];
                assert(note_matches(self.notes@[t], rows@[u]));
            }
            assert(notes_all_match(self.notes@, rows@));
        }
        rows
    }

    /// The stored branches, oldest first.
    pub fn list_branches(&self) -> (r: Vec<BranchRecord>)
        ensures
            r@.to_multiset() == self.branches@.to_multiset(),
            r@.len() == self.branches@.len(),
            forall|i: int, j: int|
                0 <= i < j < r@.len() ==> r@[i].created_at <= r@[j].created_at,
    {
        let mut rows = clone_branches(&self.branches);
        sort_asc_by_key(&mut rows);
        rows
    }

    /// The stored snapshots, newest first: the same snapshots by content,
    /// in both directions.
    pub fn list_snapshots(&self) -> (r: Vec<SnapshotRecord>)
        ensures
            r@.len() == self.snapshots@.len(),
            forall|i: int, j: int|
                0 <= i < j < r@.len() ==> r@[i].created_at >= r@[j].created_at,
            snapshots_all_match(r@, self.snapshots@),
            snapshots_all_match(self.snapshots@, r@),
    {
        let mut rows = clone_snapshots(&self.snapshots);
        let ghost cloned = rows@;
        sort_desc_by_key(&mut rows);
        proof {
            cloned.to_multiset_ensures();
            rows@.to_multiset_ensures();
            assert forall|i: int| 0 <= i < rows@.len() implies snapshot_matched_in(
                #[trigger] rows@[i],
                self.snapshots@,
            ) by {
                assert(rows@.to_multiset().count(rows@[i]) > 0) by {
                    assert(rows@.contains(rows@[i]));
                }
                assert(cloned.to_multiset().count(rows@[i]) > 0);
                assert(cloned.contains(rows@[i]));
                let k = choose|k: int| 0 <= k < cloned.len() && cloned[k] == rows@[i];
                assert(snapshot_matches(cloned[k], self.snapshots@[k]));
                assert(snapshot_matches(rows@[i], self.snapshots@[k]));
            }
            assert(snapshots_all_match(rows@, self.snapshots@));
            assert forall|t: int| 0 <= t < self.snapshots@.len() implies snapshot_matched_in(
                #[trigger] self.snapshots@[t],
                rows@,
            ) by {
                assert(snapshot_matches(cloned[t], self.snapshots@[t]));
                assert(cloned.contains(cloned[t]));
                assert(cloned.to_multiset().count(cloned[t]) > 0);
                assert(rows@.to_multiset().count(cloned[t]) > 0);
                assert(rows@.contains(cloned[t]));
                let u = choose|u: int| 0 <= u < rows@.len() && rows@[u] == cloned[t];
                assert(snapshot_matches(self.snapshots@[t], rows@[u]));
            }
            assert(snapshots_all_match(self.snapshots@, rows@));
        }
        rows
    }

    /// Finds a message by identifier — within one conversation when one
    /// is named — together with the conversation that owns it.
    pub fn find_message(&self, message_id: &str, conversation_id: Option<&str>) -> (r: Result<
        (ConversationRecord, MessageRecord),
        NotesError,
    >)
        ensures
            r is Err && r->Err_0 == NotesError::MessageNotFound <==> (forall|j: int|
                0 <= j < self.messages@.len() ==> !(#[trigger] self.messages@[j].id@ == message_id@
                    && (conversation_id is Some ==> self.messages@[j].conversation_id@
                    == conversation_id->Some_0@))),
            r is Ok ==> {
                &&& exists|j: int|
                    {
                        &&& 0 <= j < self.messages@.len()
                        &&& #[trigger] self.messages@[j] == r->Ok_0.1
                        &&& forall|t: int|
                            0 <= t < j ==> !(self.messages@[t].id@ == message_id@ && (
                            conversation_id is Some ==> self.messages@[t].conversation_id@
                                == conversation_id->Some_0@))
                    }
                &&& r->Ok_0.1.id@ == message_id@
                &&& conversation_id is Some ==> r->Ok_0.1.conversation_id@
                    == conversation_id->Some_0@
                &&& exists|k: int|
                    0 <= k < self.conversations@.len() && #[trigger] self.conversations@[k]
                        == r->Ok_0.0
                &&& r->Ok_0.0.id@ == r->Ok_0.1.conversation_id@
            },
            r is Err ==> r->Err_0 == NotesError::MessageNotFound || r->Err_0
                == NotesError::ConversationNotFound,
            r is Err && r->Err_0 == NotesError::ConversationNotFound ==> exists|j: int|
                {
                    &&& 0 <= j < self.messages@.len()
                    &&& (#[trigger] self.messages@[j]).id@ == message_id@
                    &&& (conversation_id is Some ==> self.messages@[j].conversation_id@
                        == conversation_id->Some_0@)
                    &&& (forall|t: int|
                        0 <= t < j ==> !(self.messages@[t].id@ == message_id@ && (
                        conversation_id is Some ==> self.messages@[t].conversation_id@
                            == conversation_id->Some_0@)))
                    &&& forall|k: int|
                        0 <= k < self.conversations@.len() ==> (
                        #[trigger] self.conversations@[k]).sid()
                            != self.messages@[j].conversation_id@
                },
    {
        let mut found: Option<MessageRecord> = None;
        let mut i: usize = 0;
        while i < self.messages.len()
            invariant
                i <= self.messages@.len(),
                found is Some ==> {
                    &&& exists|j: int|
                        {
                            &&& 0 <= j < self.messages@.len()
                            &&& #[trigger] self.messages@[j] == found->Some_0
                            &&& forall|t: int|
                                0 <= t < j ==> !(self.messages@[t].id@ == message_id@ && (
                                conversation_id is Some ==> self.messages@[t].conversation_id@
                                    == conversation_id->Some_0@))
                        }
                    &&& found->Some_0.id@ == message_id@
                    &&& conversation_id is Some ==> found->Some_0.conversation_id@
                        == conversation_id->Some_0@
                },
                found is None ==> forall|j: int|
                    0 <= j < i ==> !(#[trigger] self.messages@[j].id@ == message_id@ && (
                    conversation_id is Some ==> self.messages@[j].conversation_id@
                        == conversation_id->Some_0@)),
            decreases self.messages@.len() - i,
        {
            if found.is_none() {
                let row = &self.messages[i];
                let id_ok = str_eq(row.id.as_str(), message_id);
                let conv_ok = match conversation_id {
                    Some(cid) => str_eq(row.conversation_id.as_str(), cid),
                    None => true,
                };
                if id_ok && conv_ok {
                    let rec = row.clone();
                    proof {
                        assert(self.messages@[i as int] == rec);
                    }
                    found = Some(rec);
                }
            }
            i += 1;
        }
        match found {
            None => Err(NotesError::MessageNotFound),
            Some(message) => {
                match self.load_conversation(message.conversation_id.as_str()) {
                    Ok(conversation) => Ok((conversation, message)),
                    Err(_) => {
                        proof {
                            let j = choose|j: int|
                                {
                                    &&& 0 <= j < self.messages@.len()
                                    &&& #[trigger] self.messages@[j] == message
                                    &&& forall|t: int|
                                        0 <= t < j ==> !(self.messages@[t].id@ == message_id@
                                            && (conversation_id is Some
                                            ==> self.messages@[t].conversation_id@
                                            == conversation_id->Some_0@))
                                };
                            assert(self.messages@[j].id@ == message_id@);
                        }
                        Err(NotesError::ConversationNotFound)
                    },
                }
            },
        }
    }
}

} // verus!

verus! {

/// Relies on std's `SystemTime`: the seconds since the Unix epoch, or
/// zero if the clock reads before it.  The value depends on the wall
/// clock, so only its sign is assumed.
#[verifier::external_body]
pub fn now_ts() -> (r: i64)
    ensures
        r >= 0,
{
    let secs = std::time::SystemTime::now()
        .duration_since(std::time::UNIX_EPOCH)
        .unwrap_or_default()
        .as_secs();
    i64::try_from(secs).unwrap_or(i64::MAX)
}

/// Relies on std's `SystemTime`: the milliseconds since the Unix epoch,
/// truncated to machine width.  The value depends on the wall clock, so
/// nothing is assumed of it.
#[verifier::external_body]
pub fn now_millis() -> (r: u64) {
    let millis = std::time::SystemTime::now()
        .duration_since(std::time::UNIX_EPOCH)
        .unwrap_or_default()
        .as_millis();
    u64::try_from(millis).unwrap_or(u64::MAX)
}

/// The identifier built from a prefix, a timestamp and a counter:
/// `prefix_millis_counter`.
pub open spec fn spec_new_id(prefix: Seq<char>, millis: int, counter: int) -> Seq<char> {
    prefix + seq!['_'] + crate::strings::spec_dec_digits(millis) + seq!['_']
        + crate::strings::spec_dec_digits(counter)
}

/// Builds a fresh record identifier; see [`spec_new_id`].
pub fn new_id(prefix: &str, millis: u64, counter: u64) -> (r: String)
    ensures
        r@ == spec_new_id(prefix@, millis as int, counter as int),
{
    let mut out = prefix.to_owned();
    crate::strings::push_char(&mut out, '_');
    let m = crate::strings::u64_to_string(millis);
    let with_m = out.concat(m.as_str());
    let mut out2 = with_m;
    crate::strings::push_char(&mut out2, '_');
    let c = crate::strings::u64_to_string(counter);
    let r = out2.concat(c.as_str());
    proof {
        assert(r@ =~= spec_new_id(prefix@, millis as int, counter as int));
    }
    r
}

impl NotesStore {
    /// Draws a fresh identifier with the given prefix, advancing the
    /// store's counter; the timestamp part comes from the wall clock.
    pub fn fresh_id(&mut self, prefix: &str) -> (r: String)
        requires
            old(self).id_counter < u64::MAX,
        ensures
            final(self).id_counter == old(self).id_counter + 1,
            final(self).root@ == old(self).root@,
            final(self).conversations@ == old(self).conversations@,
            final(self).messages@ == old(self).messages@,
            final(self).notes@ == old(self).notes@,
            final(self).branches@ == old(self).branches@,
            final(self).snapshots@ == old(self).snapshots@,
            exists|m: int|
                r@ == spec_new_id(prefix@, m, old(self).id_counter as int),
    {
        let millis = now_millis();
        let r = new_id(prefix, millis, self.id_counter);
        self.id_counter = self.id_counter + 1;
        proof {
            assert(r@ == spec_new_id(prefix@, millis as int, old(self).id_counter as int));
        }
        r
    }

    /// Returns the stored conversation titled `main`, most recently
    /// updated first, creating one when none exists.
    pub fn ensure_default_main_conversation(&mut self) -> (r: ConversationRecord)
        requires
            old(self).id_counter < u64::MAX,
        ensures
            r.title@ == "main"@,
            final(self).id_counter <= old(self).id_counter + 1,
            exists|j: int|
                0 <= j < final(self).conversations@.len() && #[trigger] final(
                    self).conversations@[j] == r,
            (exists|j: int|
                0 <= j < old(self).conversations@.len() && (#[trigger] old(
                    self).conversations@[j]).title@ == "main"@) ==> {
                &&& *final(self) == *old(self)
                &&& exists|j: int|
                    0 <= j < old(self).conversations@.len() && #[trigger] old(
                        self).conversations@[j] == r
                &&& forall|j: int|
                    0 <= j < old(self).conversations@.len() && (#[trigger] old(
                        self).conversations@[j]).title@ == "main"@ ==> old(
                        self).conversations@[j].updated_at <= r.updated_at
            },
            (forall|j: int|
                0 <= j < old(self).conversations@.len() ==> (#[trigger] old(
                    self).conversations@[j]).title@ != "main"@) ==> {
                &&& r.created_at == r.updated_at
                &&& r.root_message_id is None
                &&& final(self).conversations@.len() <= old(self).conversations@.len() + 1
                &&& (forall|t: int|
                    0 <= t < old(self).conversations@.len() && (#[trigger] old(
                        self).conversations@[t]).sid() != r.id@ ==> final(self).conversations@[t]
                        == old(self).conversations@[t])
            },
            final(self).messages@ == old(self).messages@,
            final(self).notes@ == old(self).notes@,
            final(self).branches@ == old(self).branches@,
            final(self).snapshots@ == old(self).snapshots@,
            final(self).root@ == old(self).root@,
    {
        let rows = self.list_conversations();
        let mut i: usize = 0;
        while i < rows.len()
            invariant
                i <= rows@.len(),
                *self == *old(self),
                rows@.to_multiset() == self.conversations@.to_multiset(),
                forall|a: int, b: int|
                    0 <= a < b < rows@.len() ==> rows@[a].updated_at >= rows@[b].updated_at,
                forall|t: int| 0 <= t < i ==> (#[trigger] rows@[t]).title@ != "main"@,
            decreases rows@.len() - i,
        {
            if str_eq(rows[i].title.as_str(), "main") {
                let found = rows[i].clone();
                proof {
                    broadcast use group_to_multiset_ensures;

                    assert(rows@.contains(rows@[i as int]));
                    assert(rows@.to_multiset().count(found) > 0);
                    assert(self.conversations@.to_multiset().count(found) > 0);
                    assert(self.conversations@.contains(found));
                    let j = choose|j: int|
                        0 <= j < self.conversations@.len() && self.conversations@[j] == found;
                    assert(self.conversations@[j] == found);
                    assert(found.title@ == "main"@);
                    assert forall|t: int|
                        0 <= t < self.conversations@.len() && (
                        #[trigger] self.conversations@[t]).title@ == "main"@ implies self
                        .conversations@[t].updated_at <= found.updated_at by {
                        assert(self.conversations@.contains(self.conversations@[t]));
                        assert(self.conversations@.to_multiset().count(self.conversations@[t])
                            > 0);
                        assert(rows@.to_multiset().count(self.conversations@[t]) > 0);
                        assert(rows@.contains(self.conversations@[t]));
                        let u = choose|u: int|
                            0 <= u < rows@.len() && rows@[u] == self.conversations@[t];
                        assert(u >= i);
                    }
                }
                return found;
            }
            i += 1;
        }
        proof {
            broadcast use group_to_multiset_ensures;

            assert forall|j: int| 0 <= j < self.conversations@.len() implies (
            #[trigger] self.conversations@[j]).title@ != "main"@ by {
                assert(self.conversations@.contains(self.conversations@[j]));
                assert(self.conversations@.to_multiset().count(self.conversations@[j]) > 0);
                assert(rows@.to_multiset().count(self.conversations@[j]) > 0);
                assert(rows@.contains(self.conversations@[j]));
                let t = choose|t: int| 0 <= t < rows@.len() && rows@[t] == self.conversations@[j];
                assert(rows@[t].title@ != "main"@);
            }
        }
        let now = now_ts();
        let id = self.fresh_id("c");
        let conversation = ConversationRecord {
            id,
            title: String::from_str("main"),
            created_at: now,
            updated_at: now,
            root_message_id: None,
        };
        let ghost pre = self.conversations@;
        self.save_conversation(&conversation);
        let result = conversation.clone();
        proof {
            let j = choose|j: int|
                0 <= j < self.conversations@.len() && self.conversations@[j] == conversation;
            assert(self.conversations@[j] == result);
        }
        result
    }

    /// The index summary over the stored records: one count per record
    /// kind, stamped with the wall clock.
    pub fn rebuild_index(&self) -> (summary: IndexSummary)
        ensures
            summary.version == STORE_VERSION,
            summary.generated_at >= 0,
            summary.conversations == self.conversations@.len(),
            summary.messages == self.messages@.len(),
            summary.notes == self.notes@.len(),
            summary.branches == self.branches@.len(),
            summary.snapshots == self.snapshots@.len(),
    {
        IndexSummary {
            version: STORE_VERSION,
            generated_at: now_ts(),
            conversations: self.conversations.len(),
            messages: self.messages.len(),
            notes: self.notes.len(),
            branches: self.branches.len(),
            snapshots: self.snapshots.len(),
        }
    }
}

/// The canonical form a status or priority word is validated in:
/// trimmed and lower-cased.
pub open spec fn spec_canon_word(s: Seq<char>) -> Seq<char> {
    spec_to_lower(spec_trim(s))
}

/// Whether a canonical word is an accepted note status.
pub open spec fn spec_valid_status(folded: Seq<char>) -> bool {
    ||| folded == "draft"@
    ||| folded == "open"@
    ||| folded == "blocked"@
    ||| folded == "done"@
    ||| folded == "archived"@
}

/// Whether a canonical word is an accepted note priority.
pub open spec fn spec_valid_priority(folded: Seq<char>) -> bool {
    ||| folded == "p0"@
    ||| folded == "p1"@
    ||| folded == "p2"@
    ||| folded == "p3"@
}

/// Validates a note status, returning its canonical lower-case form;
/// only `draft`, `open`, `blocked`, `done` and `archived` are accepted.
pub fn normalize_status(status: String) -> (r: Result<String, NotesError>)
    ensures
        r is Ok <==> spec_valid_status(spec_canon_word(status@)),
        r is Ok ==> r->Ok_0@ == spec_canon_word(status@),
        r is Err ==> r->Err_0 == NotesError::InvalidStatus,
{
    let trimmed = trim(status.as_str());
    let folded = to_ascii_lower(trimmed.as_str());
    if str_eq(folded.as_str(), "draft") || str_eq(folded.as_str(), "open") || str_eq(
        folded.as_str(),
        "blocked",
    ) || str_eq(folded.as_str(), "done") || str_eq(folded.as_str(), "archived") {
        Ok(folded)
    } else {
        Err(NotesError::InvalidStatus)
    }
}

/// Validates a note priority, returning its canonical lower-case form;
/// only `p0`, `p1`, `p2` and `p3` are accepted.
pub fn normalize_priority(priority: String) -> (r: Result<String, NotesError>)
    ensures
        r is Ok <==> spec_valid_priority(spec_canon_word(priority@)),
        r is Ok ==> r->Ok_0@ == spec_canon_word(priority@),
        r is Err ==> r->Err_0 == NotesError::InvalidPriority,
{
    let trimmed = trim(priority.as_str());
    let folded = to_ascii_lower(trimmed.as_str());
    if str_eq(folded.as_str(), "p0") || str_eq(folded.as_str(), "p1") || str_eq(
        folded.as_str(),
        "p2",
    ) || str_eq(folded.as_str(), "p3") {
        Ok(folded)
    } else {
        Err(NotesError::InvalidPriority)
    }
}

/// What trimming a value for a table column yields: a short value stays
/// whole; a long one is cut to leave room for a trailing ellipsis.
pub open spec fn spec_trim_for_table(s: Seq<char>, max_len: int) -> Seq<char> {
    if s.len() <= max_len {
        s
    } else if max_len == 0 {
        seq!['\u{2026}']
    } else {
        s.subrange(0, max_len - 1).push('\u{2026}')
    }
}

/// Shortens a value to fit a table column; see [`spec_trim_for_table`].
pub fn trim_for_table(value: &str, max_len: usize) -> (r: String)
    ensures
        r@ == spec_trim_for_table(value@, max_len as int),
{
    let n = value.unicode_len();
    if n <= max_len {
        return value.to_owned();
    }
    let keep = if max_len == 0 {
        0
    } else {
        max_len - 1
    };
    let mut out = value.substring_char(0, keep).to_owned();
    crate::strings::push_char(&mut out, '\u{2026}');
    proof {
        if max_len == 0 {
            assert(out@ =~= spec_trim_for_table(value@, max_len as int));
        } else {
            assert(out@ =~= spec_trim_for_table(value@, max_len as int));
        }
    }
    out
}

/// Resolves the workspace directory through the real filesystem; a
/// workspace that does not exist is refused.  Which absolute path comes
/// back depends on the disk.
pub fn resolve_workspace(workspace: &String) -> (r: Result<AbsPath, NotesError>)
    ensures
        r is Err ==> r->Err_0 == NotesError::WorkspaceNotFound,
{
    match crate::compiler::canonicalize_os(workspace) {
        Some(resolved) => {
            match AbsPath::from_string(resolved.as_str()) {
                Some(p) => Ok(p),
                None => Err(NotesError::WorkspaceNotFound),
            }
        },
        None => Err(NotesError::WorkspaceNotFound),
    }
}

/// The conversation a new note belongs to: an explicitly named
/// conversation (checked, and checked to hold the named message when one
/// is given), the conversation owning a named message, or the default
/// `main` conversation when neither is named.
pub fn resolve_note_conversation_id(
    store: &mut NotesStore,
    conversation_id: Option<String>,
    message_id: Option<String>,
) -> (r: Result<String, NotesError>)
    requires
        old(store).id_counter < u64::MAX,
    ensures
        r is Ok ==> exists|j: int|
            0 <= j < final(store).conversations@.len() && (#[trigger] final(
                store).conversations@[j]).id@ == r->Ok_0@,
        r is Err ==> r->Err_0 == NotesError::MessageNotFound || r->Err_0
            == NotesError::ConversationNotFound,
        conversation_id is Some && message_id is Some ==> {
            &&& *final(store) == *old(store)
            &&& (r is Ok <==> ((exists|j: int|
                0 <= j < old(store).messages@.len() && (#[trigger] old(store).messages@[j]).id@
                    == message_id->Some_0@ && old(store).messages@[j].conversation_id@
                    == conversation_id->Some_0@) && (exists|k: int|
                0 <= k < old(store).conversations@.len() && (#[trigger] old(
                    store).conversations@[k]).sid() == conversation_id->Some_0@)))
            &&& (r is Ok ==> r->Ok_0@ == conversation_id->Some_0@)
        },
        conversation_id is None && message_id is Some ==> {
            &&& *final(store) == *old(store)
            &&& (r is Err && r->Err_0 == NotesError::MessageNotFound <==> (forall|j: int|
                0 <= j < old(store).messages@.len() ==> (#[trigger] old(store).messages@[j]).id@
                    != message_id->Some_0@))
            &&& (r is Ok ==> exists|j: int|
                {
                    &&& 0 <= j < old(store).messages@.len()
                    &&& (#[trigger] old(store).messages@[j]).id@ == message_id->Some_0@
                    &&& (forall|t: int|
                        0 <= t < j ==> old(store).messages@[t].id@ != message_id->Some_0@)
                    &&& r->Ok_0@ == old(store).messages@[j].conversation_id@
                    &&& exists|k: int|
                        0 <= k < old(store).conversations@.len() && (#[trigger] old(
                            store).conversations@[k]).sid()
                            == old(store).messages@[j].conversation_id@
                })
            &&& ((exists|j: int|
                {
                    &&& 0 <= j < old(store).messages@.len()
                    &&& (#[trigger] old(store).messages@[j]).id@ == message_id->Some_0@
                    &&& (forall|t: int|
                        0 <= t < j ==> old(store).messages@[t].id@ != message_id->Some_0@)
                    &&& exists|k: int|
                        0 <= k < old(store).conversations@.len() && (#[trigger] old(
                            store).conversations@[k]).sid()
                            == old(store).messages@[j].conversation_id@
                }) ==> r is Ok)
        },
        conversation_id is Some && message_id is None ==> {
            &&& *final(store) == *old(store)
            &&& (r is Ok <==> exists|k: int|
                0 <= k < old(store).conversations@.len() && (#[trigger] old(
                    store).conversations@[k]).sid() == conversation_id->Some_0@)
            &&& (r is Ok ==> r->Ok_0@ == conversation_id->Some_0@)
        },
        conversation_id is None && message_id is None ==> r is Ok,
        final(store).id_counter <= old(store).id_counter + 1,
        final(store).messages@ == old(store).messages@,
        final(store).notes@ == old(store).notes@,
        final(store).branches@ == old(store).branches@,
        final(store).snapshots@ == old(store).snapshots@,
        final(store).root@ == old(store).root@,
{
    match (conversation_id, message_id) {
        (Some(cid), Some(mid)) => {
            match store.find_message(mid.as_str(), Some(cid.as_str())) {
                Ok(pair) => {
                    proof {
                        let (conversation, message) = pair;
                        let k = choose|k: int|
                            0 <= k < store.conversations@.len()
                                && #[trigger] store.conversations@[k] == conversation;
                        assert(store.conversations@[k].id@ == cid@);
                    }
                    Ok(cid)
                },
                Err(e) => Err(e),
            }
        },
        (None, Some(mid)) => {
            match store.find_message(mid.as_str(), None) {
                Ok(pair) => {
                    let (conversation, _message) = pair;
                    let out = conversation.id.clone();
                    proof {
                        let k = choose|k: int|
                            0 <= k < store.conversations@.len()
                                && #[trigger] store.conversations@[k] == conversation;
                        assert(store.conversations@[k].id@ == out@);
                    }
                    Ok(out)
                },
                Err(e) => Err(e),
            }
        },
        (Some(cid), None) => {
            match store.load_conversation(cid.as_str()) {
                Ok(conversation) => {
                    proof {
                        let k = choose|k: int|
                            0 <= k < store.conversations@.len()
                                && #[trigger] store.conversations@[k] == conversation;
                        assert(store.conversations@[k].id@ == cid@);
                    }
                    Ok(cid)
                },
                Err(e) => Err(e),
            }
        },
        (None, None) => {
            let conversation = store.ensure_default_main_conversation();
            let out = conversation.id.clone();
            proof {
                let k = choose|k: int|
                    0 <= k < store.conversations@.len() && #[trigger] store.conversations@[k]
                        == conversation;
                assert(store.conversations@[k].id@ == out@);
            }
            Ok(out)
        },
    }
}

} // verus!
