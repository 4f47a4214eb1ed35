//! Structured error values. Every failure of the core is one of these, so a
//! presentation layer can render a specific message for each kind.

use vstd::prelude::*;

verus! {

/// Failures of loading or saving the global configuration document. Each
/// variant carries the underlying failure rendered as text.
#[derive(Debug, Clone)]
pub enum Error {
    FailToOpenConfigFile(String),
    InvalidConfigFile(String),
    FailToWriteConfigFile(String),
}

/// The one conversation-configuration error: a message cannot be sent while
/// the conversation has no model chosen.
#[derive(Debug, Clone, Copy, PartialEq, Eq, Structural)]
pub enum ChatConfigError {
    ModelNotSet,
}

/// Upstream API failures, each sub-kind kept distinct.
#[derive(Debug, Clone)]
pub enum CommandOpenAIError {
    HttpError(String),
    ApiError(String),
    JSONDeserialize(String),
    FileSaveError(String),
    FileReadError(String),
    StreamError(String),
    InvalidArgument(String),
}

/// Any failure of a command exposed to external callers.
#[derive(Debug, Clone)]
pub enum CommandError {
    ChatConfig(ChatConfigError),
    OpenAI(CommandOpenAIError),
    Db(String),
}

} // verus!
