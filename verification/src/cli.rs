//! The arguments of the command-line subcommands, as plain values.
use vstd::prelude::*;

verus! {

/// `ingest <source> <content> [--scope]`.
#[derive(Clone, Debug)]
pub struct IngestArgs {
    pub source: String,
    pub content: String,
    pub scope: String,
}

/// `file-claim <text> [--tier]`.
#[derive(Clone, Debug)]
pub struct FileClaimArgs {
    pub text: String,
    pub tier: String,
}

/// `query <query> [--write-page] [--page-title]`.
#[derive(Clone, Debug)]
pub struct QueryArgs {
    pub query: String,
    pub write_page: bool,
    pub page_title: Option<String>,
}

/// `outbox export` or `outbox ack`.
#[derive(Clone, Debug)]
pub enum OutboxSubcommand {
    Export(OutboxExportArgs),
    Ack(OutboxAckArgs),
}

/// `outbox <subcommand>`.
#[derive(Clone, Debug)]
pub struct OutboxCommand {
    pub command: OutboxSubcommand,
}

/// `outbox export [--consumer]`.
#[derive(Clone, Debug)]
pub struct OutboxExportArgs {
    pub consumer: String,
}

/// `outbox ack <event_id> [--consumer]`.
#[derive(Clone, Debug)]
pub struct OutboxAckArgs {
    pub event_id: String,
    pub consumer: String,
}

/// `llm-smoke [--config] [--prompt]`; the config path is kept as text.
#[derive(Clone, Debug)]
pub struct LlmSmokeArgs {
    pub config: Option<String>,
    pub prompt: String,
}

} // verus!
