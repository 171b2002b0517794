//! The data model: raw per-source records as plain values, and the
//! canonical session, project and metrics types the pipeline produces.
use vstd::prelude::*;

verus! {

/// Which tool a session or project was recorded by.
#[derive(Clone, Copy, Debug, PartialEq, Eq, Structural, Hash)]
pub enum DataSource {
    Claude,
    Cursor,
}

/// Token counts as one event reports them; absent means not reported.
#[derive(Clone, Copy, Debug, PartialEq)]
pub struct TokenUsage {
    pub input_tokens: Option<u64>,
    pub output_tokens: Option<u64>,
    pub cache_read_input_tokens: Option<u64>,
    pub cache_creation_input_tokens: Option<u64>,
}

/// Accumulated token counts for a session, project or run.
#[derive(Clone, Debug, PartialEq)]
pub struct TokenTotals {
    pub input: u64,
    pub output: u64,
    pub cache_read: u64,
    pub cache_creation: u64,
}

impl TokenTotals {
    /// All counters at zero.
    pub fn zero() -> (r: Self)
        ensures
            r == (TokenTotals { input: 0, output: 0, cache_read: 0, cache_creation: 0 }),
    {
        TokenTotals { input: 0, output: 0, cache_read: 0, cache_creation: 0 }
    }

    /// Input plus output tokens, saturating at `u64::MAX`.
    pub fn total(&self) -> (r: u64)
        ensures
            r == crate::sat_add(self.input, self.output),
    {
        crate::sat_add64(self.input, self.output)
    }
}

/// Lines added to and removed from one file over a session.
#[derive(Clone, Debug, PartialEq)]
pub struct FileContribution {
    pub added: u64,
    pub removed: u64,
}

/// One entry of a session's per-file contribution table.
#[derive(Clone, Debug, PartialEq)]
pub struct FileEntry {
    pub path: String,
    pub contribution: FileContribution,
}

/// One entry of a tool-usage counter table.
#[derive(Clone, Debug, PartialEq)]
pub struct ToolCount {
    pub name: String,
    pub count: u64,
}

/// One normalized conversation turn.
#[derive(Clone, Debug, PartialEq)]
pub struct ConversationMessage {
    pub role: String,
    pub timestamp: String,
    pub uuid: String,
    pub content: String,
    pub usage: Option<TokenUsage>,
}

/// The canonical unit the normalizers produce: one conversation session
/// with its ordered messages and accumulated accounting.
#[derive(Clone, Debug, PartialEq)]
pub struct ParsedSession {
    pub session_id: String,
    pub project_id: String,
    pub cwd: String,
    pub messages: Vec<ConversationMessage>,
    pub tool_usage: Vec<ToolCount>,
    pub total_tokens: TokenTotals,
    pub duration_ms: i64,
    pub lines_added: u64,
    pub lines_removed: u64,
    pub file_contributions: Vec<FileEntry>,
    pub first_prompt: String,
    pub started_at: String,
    pub last_active: String,
    pub human_lines: u64,
    pub human_words: u64,
    pub human_chars: u64,
    pub model: String,
    pub source: DataSource,
}

/// A lightweight handle to one session's backing location.
#[derive(Clone, Debug, PartialEq)]
pub struct SessionFile {
    pub id: String,
    pub path: String,
    pub size: u64,
    pub source: DataSource,
}

/// One scanned project container before the cross-source merge.
#[derive(Clone, Debug, PartialEq)]
pub struct ScannedProject {
    pub id: String,
    pub dir: String,
    pub sources: Vec<DataSource>,
    pub session_files: Vec<SessionFile>,
}

/// One logical project after the merge, with its roll-up statistics.
/// `cost` is in hundred-millionths of a dollar, so that the per-million
/// token rates stay exact integers.
#[derive(Clone, Debug, PartialEq)]
pub struct ProjectSummary {
    pub id: String,
    pub name: String,
    pub path: String,
    pub session_count: usize,
    pub message_count: usize,
    pub total_tokens: TokenTotals,
    pub lines_added: u64,
    pub lines_removed: u64,
    pub last_active: String,
    pub tool_usage: Vec<ToolCount>,
    pub cost: u64,
    pub model: String,
    pub sources: Vec<DataSource>,
    pub sessions: Vec<ParsedSession>,
}

/// Activity totals of one calendar day.
#[derive(Clone, Debug, PartialEq)]
pub struct TimelineEntry {
    pub date: String,
    pub sessions: u64,
    pub messages: u64,
    pub token_input: u64,
    pub token_output: u64,
}

/// Totals over every project of a run. `total_cost` uses the same unit
/// as `ProjectSummary::cost`.
#[derive(Clone, Debug, PartialEq)]
pub struct GlobalMetrics {
    pub total_projects: usize,
    pub total_sessions: usize,
    pub total_messages: usize,
    pub total_tokens: TokenTotals,
    pub tool_usage: Vec<ToolCount>,
    pub timeline: Vec<TimelineEntry>,
    pub total_lines_added: u64,
    pub total_lines_removed: u64,
    pub total_cost: u64,
    pub human_lines: u64,
    pub human_words: u64,
    pub human_chars: u64,
}

// --- Raw record types, one per source format. Each field holds, as a
// --- plain value, exactly what the normalizers read from the record.

/// The input object of a tool-use block, reduced to the fields the
/// accounting reads.
#[derive(Clone, Debug, PartialEq)]
pub struct ToolInput {
    pub content: Option<String>,
    pub file_path: Option<String>,
    pub old_string: Option<String>,
    pub new_string: Option<String>,
}

/// One typed block of an event's structured content.
#[derive(Clone, Debug, PartialEq)]
pub struct ContentBlock {
    pub block_type: String,
    pub text: Option<String>,
    pub name: Option<String>,
    pub input: Option<ToolInput>,
}

/// A message body's content: a plain string or structured blocks.
#[derive(Clone, Debug, PartialEq)]
pub enum RawContent {
    Text(String),
    Blocks(Vec<ContentBlock>),
    Other,
}

/// The message part of a raw log event.
#[derive(Clone, Debug, PartialEq)]
pub struct RawMessage {
    pub role: String,
    pub content: RawContent,
    pub model: Option<String>,
    pub id: Option<String>,
    pub usage: Option<TokenUsage>,
}

/// One raw event of the line-oriented log format.
#[derive(Clone, Debug, PartialEq)]
pub struct RawEvent {
    pub event_type: String,
    pub subtype: Option<String>,
    pub session_id: Option<String>,
    pub cwd: Option<String>,
    pub uuid: Option<String>,
    pub timestamp: Option<String>,
    pub message: Option<RawMessage>,
    pub duration_ms: Option<i64>,
}

/// One code block attached to a key-value-store turn.
#[derive(Clone, Debug, PartialEq)]
pub struct CodeBlock {
    pub content: Option<String>,
    pub fs_path: Option<String>,
    pub path: Option<String>,
}

/// One raw turn ("bubble") of the key-value-store format.
#[derive(Clone, Debug, PartialEq)]
pub struct RawBubble {
    pub bubble_type: i64,
    pub text: String,
    pub input_tokens: Option<u64>,
    pub output_tokens: Option<u64>,
    pub code_blocks: Vec<CodeBlock>,
    pub start_time: Option<i64>,
    pub end_time: Option<i64>,
    pub bubble_id: Option<String>,
}

/// One session container's head entry in the key-value store's
/// composer metadata.
#[derive(Clone, Debug, PartialEq)]
pub struct ComposerHead {
    pub composer_id: String,
    pub created_at: Option<i64>,
    pub is_archived: bool,
}

} // verus!
