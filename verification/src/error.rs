//! The ways in which a run can fail.

use vstd::prelude::*;
use vstd::string::StringExecFns;

verus! {

/// Every failure ends the run; none is retried.
#[derive(Clone, Copy, Debug, PartialEq, Eq, Structural)]
pub enum Failure {
    /// The text is not a well-formed absolute URL.
    InvalidUrl,
    /// The URL's host is not the video site.
    NotTwitchUrl,
    /// The URL's path does not name a video.
    NotAVideoUrl,
    /// The metadata request was not answered successfully.
    FetchFailed,
    /// The body of the answer could not be read as text.
    InvalidResponseBody,
    /// The answer does not describe a video.
    InvalidResponseData,
    /// The configuration file is malformed.
    ConfigParseError,
    /// A configured command has no program.
    InvalidCommand,
    /// A template names a placeholder for which there is no value.
    TemplateRenderError,
    /// The command could not be started or awaited.
    ExecutionFailed,
    /// The resolution prompt failed or was cancelled.
    PromptFailed,
    /// The named executor is not configured.
    UnknownExecutor,
}

impl Failure {
    /// The text shown to the user for this failure.
    pub open spec fn message_text(self) -> Seq<char> {
        match self {
            Failure::InvalidUrl => "Invalid url"@,
            Failure::NotTwitchUrl => "Not a twitch url"@,
            Failure::NotAVideoUrl => "Not a video url"@,
            Failure::FetchFailed => "Failed to fetch data"@,
            Failure::InvalidResponseBody => "Invalid data received"@,
            Failure::InvalidResponseData => "Invalid data received"@,
            Failure::ConfigParseError => "Error in configuration file"@,
            Failure::InvalidCommand => "Invalid command"@,
            Failure::TemplateRenderError => "Missing data for a placeholder"@,
            Failure::ExecutionFailed => "Failed to run the command"@,
            Failure::PromptFailed => "Invalid resolution"@,
            Failure::UnknownExecutor => "Invalid executor"@,
        }
    }

    /// The text shown to the user for this failure.
    pub fn message(&self) -> (r: String)
        ensures
            r@ == self.message_text(),
    {
        match self {
            Failure::InvalidUrl => String::from_str("Invalid url"),
            Failure::NotTwitchUrl => String::from_str("Not a twitch url"),
            Failure::NotAVideoUrl => String::from_str("Not a video url"),
            Failure::FetchFailed => String::from_str("Failed to fetch data"),
            Failure::InvalidResponseBody => String::from_str("Invalid data received"),
            Failure::InvalidResponseData => String::from_str("Invalid data received"),
            Failure::ConfigParseError => String::from_str("Error in configuration file"),
            Failure::InvalidCommand => String::from_str("Invalid command"),
            Failure::TemplateRenderError => String::from_str("Missing data for a placeholder"),
            Failure::ExecutionFailed => String::from_str("Failed to run the command"),
            Failure::PromptFailed => String::from_str("Invalid resolution"),
            Failure::UnknownExecutor => String::from_str("Invalid executor"),
        }
    }
}

} // verus!
