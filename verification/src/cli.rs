//! The command-line argument shapes of the journaling front end.
//!
//! These are plain data carriers: the binary parses its argv into them
//! and hands them to the store operations.  Workspace paths arrive as
//! plain strings and are resolved by `resolve_workspace`.

use vstd::prelude::*;

verus! {

/// The `conversation` verb.
#[derive(Debug)]
pub struct ConversationCli {
    pub subcommand: ConversationSubcommand,
}

/// A `conversation` action.
#[derive(Debug)]
pub enum ConversationSubcommand {
    /// Create a conversation record.
    Create(ConversationCreateArgs),
    /// List conversations.
    List(ConversationListArgs),
    /// Show one conversation and its messages.
    Show(ConversationShowArgs),
}

#[derive(Debug)]
pub struct ConversationCreateArgs {
    pub workspace: String,
    pub title: String,
}

#[derive(Debug)]
pub struct ConversationListArgs {
    pub workspace: String,
    pub json: bool,
}

#[derive(Debug)]
pub struct ConversationShowArgs {
    pub workspace: String,
    pub id: String,
    pub json: bool,
}

/// The `message` verb.
#[derive(Debug)]
pub struct MessageCli {
    pub subcommand: MessageSubcommand,
}

/// A `message` action.
#[derive(Debug)]
pub enum MessageSubcommand {
    /// Add one message to a conversation.
    Add(MessageAddArgs),
}

#[derive(Debug)]
pub struct MessageAddArgs {
    pub workspace: String,
    pub conversation: String,
    pub role: String,
    pub content: String,
    pub parent: Option<String>,
    pub json: bool,
}

/// The `note` verb.
#[derive(Debug)]
pub struct NoteCli {
    pub subcommand: NoteSubcommand,
}

/// A `note` action.
#[derive(Debug)]
pub enum NoteSubcommand {
    /// Add a note.
    Add(NoteAddArgs),
    /// Attach a note to one message.
    Annotate(NoteAnnotateArgs),
    /// List notes.
    List(NoteListArgs),
    /// Show one note.
    Show(NoteShowArgs),
    /// Update one note.
    Update(NoteUpdateArgs),
    /// Archive one note.
    Archive(NoteArchiveArgs),
}

#[derive(Debug)]
pub struct NoteAddArgs {
    pub workspace: String,
    pub title: String,
    pub body: String,
    pub conversation: Option<String>,
    pub message: Option<String>,
    pub tags: Vec<String>,
    pub status: String,
    pub priority: String,
    pub related_files: Vec<String>,
    pub json: bool,
}

#[derive(Debug)]
pub struct NoteAnnotateArgs {
    pub workspace: String,
    pub message: String,
    pub body: String,
    pub conversation: Option<String>,
    pub tags: Vec<String>,
    pub json: bool,
}

#[derive(Debug)]
pub struct NoteListArgs {
    pub workspace: String,
    pub status: Option<String>,
    pub tag: Option<String>,
    pub conversation: Option<String>,
    pub repo: Option<String>,
    pub json: bool,
}

#[derive(Debug)]
pub struct NoteShowArgs {
    pub workspace: String,
    pub id: String,
    pub json: bool,
}

#[derive(Debug)]
pub struct NoteUpdateArgs {
    pub workspace: String,
    pub id: String,
    pub title: Option<String>,
    pub body: Option<String>,
    pub tags: Vec<String>,
    pub status: Option<String>,
    pub priority: Option<String>,
    pub clear_tags: bool,
    pub json: bool,
}

#[derive(Debug)]
pub struct NoteArchiveArgs {
    pub workspace: String,
    pub id: String,
    pub json: bool,
}

/// The `branch` verb.
#[derive(Debug)]
pub struct BranchCli {
    pub subcommand: BranchSubcommand,
}

/// A `branch` action.
#[derive(Debug)]
pub enum BranchSubcommand {
    /// Fork a new conversation from a message.
    Fork(BranchForkArgs),
    /// Show conversation branch tree.
    Tree(BranchTreeArgs),
}

#[derive(Debug)]
pub struct BranchForkArgs {
    pub workspace: String,
    pub message: String,
    pub conversation: Option<String>,
    pub title: Option<String>,
    pub json: bool,
}

#[derive(Debug)]
pub struct BranchTreeArgs {
    pub workspace: String,
    pub conversation: String,
}

/// The `snapshot` verb.
#[derive(Debug)]
pub struct SnapshotCli {
    pub subcommand: SnapshotSubcommand,
}

/// A `snapshot` action.
#[derive(Debug)]
pub enum SnapshotSubcommand {
    /// Create one snapshot.
    Create(SnapshotCreateArgs),
    /// List snapshots.
    List(SnapshotListArgs),
    /// Show one snapshot.
    Show(SnapshotShowArgs),
    /// Render one snapshot as resume context text.
    Resume(SnapshotResumeArgs),
}

#[derive(Debug)]
pub struct SnapshotCreateArgs {
    pub workspace: String,
    pub conversation: String,
    pub summary: Option<String>,
    pub todo: Vec<String>,
    pub risk: Vec<String>,
    pub from_latest: bool,
    pub json: bool,
}

#[derive(Debug)]
pub struct SnapshotListArgs {
    pub workspace: String,
    pub conversation: Option<String>,
    pub json: bool,
}

#[derive(Debug)]
pub struct SnapshotShowArgs {
    pub workspace: String,
    pub id: String,
    pub json: bool,
}

#[derive(Debug)]
pub struct SnapshotResumeArgs {
    pub workspace: String,
    pub snapshot: String,
}

/// The `search` verb's arguments.
#[derive(Debug)]
pub struct SearchArgs {
    pub workspace: String,
    pub query: String,
    pub tag: Option<String>,
    pub status: Option<String>,
    pub repo: Option<String>,
    pub conversation: Option<String>,
    pub json: bool,
}

/// The `export` verb.
#[derive(Debug)]
pub struct ExportCli {
    pub subcommand: ExportSubcommand,
}

/// An `export` action.
#[derive(Debug)]
pub enum ExportSubcommand {
    /// Export one conversation (with optional branches).
    Conversation(ExportConversationArgs),
}

#[derive(Debug)]
pub struct ExportConversationArgs {
    pub workspace: String,
    pub id: String,
    pub format: String,
    pub with_branches: bool,
    pub json: bool,
}

/// The `index` verb.
#[derive(Debug)]
pub struct IndexCli {
    pub subcommand: IndexSubcommand,
}

/// An `index` action.
#[derive(Debug)]
pub enum IndexSubcommand {
    /// Rebuild index.
    Rebuild(IndexRebuildArgs),
}

#[derive(Debug)]
pub struct IndexRebuildArgs {
    pub workspace: String,
    pub json: bool,
}

} // verus!
