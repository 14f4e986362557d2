//! The library's error type.

use vstd::prelude::*;
use crate::text::{chars_of, contains, extend, extend_str, string_of, contains_seq};

verus! {

/// What can go wrong. Every variant carries the text that describes the
/// failure; failures that arise outside the library arrive as their message.
#[derive(Debug, Clone)]
pub enum DjourError {
    /// The directory is no journal.
    NotDjourDirectory(String),
    /// A time reference that cannot be read.
    InvalidTimeReference(String),
    /// No content matches a query.
    TagNotFound(String),
    /// Input or output failed.
    Io(String),
    /// A configuration value, a query or a note is not as required.
    Config(String),
    /// A template is unknown or unreadable.
    Template(String),
    /// The editor could not be started.
    Editor(String),
    /// The configuration file could not be read as TOML.
    TomlDeserialize(String),
    /// The configuration could not be written as TOML.
    TomlSerialize(String),
}

impl DjourError {
    /// The text that the error carries.
    pub open spec fn detail(self) -> Seq<char> {
        match self {
            DjourError::NotDjourDirectory(s) => s@,
            DjourError::InvalidTimeReference(s) => s@,
            DjourError::TagNotFound(s) => s@,
            DjourError::Io(s) => s@,
            DjourError::Config(s) => s@,
            DjourError::Template(s) => s@,
            DjourError::Editor(s) => s@,
            DjourError::TomlDeserialize(s) => s@,
            DjourError::TomlSerialize(s) => s@,
        }
    }

    /// What stands before the detail in the error's message.
    pub open spec fn label(self) -> Seq<char> {
        match self {
            DjourError::NotDjourDirectory(_) => "Not a djour directory: "@,
            DjourError::InvalidTimeReference(_) => "Invalid time reference: "@,
            DjourError::TagNotFound(_) => "Tag not found: "@,
            DjourError::Io(_) => "IO error: "@,
            DjourError::Config(_) => "Configuration error: "@,
            DjourError::Template(_) => "Template error: "@,
            DjourError::Editor(_) => "Editor error: "@,
            DjourError::TomlDeserialize(_) => "TOML deserialization error: "@,
            DjourError::TomlSerialize(_) => "TOML serialization error: "@,
        }
    }

    /// The process exit code that stands for the error.
    pub open spec fn code(self) -> int {
        match self {
            DjourError::NotDjourDirectory(_) => 2,
            DjourError::InvalidTimeReference(_) => 3,
            DjourError::TagNotFound(_) => 4,
            _ => 1,
        }
    }

    /// A configuration error with the given message.
    pub fn config(message: &str) -> (e: DjourError)
        ensures
            e matches DjourError::Config(m) && m@ == message@,
    {
        DjourError::Config(string_of(&chars_of(message)))
    }

    /// The status with which the program ends on this error.
    pub fn exit_code(&self) -> (code: i32)
        ensures
            code == self.code(),
    {
        match self {
            DjourError::NotDjourDirectory(_) => 2,
            DjourError::InvalidTimeReference(_) => 3,
            DjourError::TagNotFound(_) => 4,
            _ => 1,
        }
    }

    /// The error's one-line message: its label, then its detail.
    pub fn to_string(&self) -> (out: String)
        ensures
            out@ == self.label() + self.detail(),
    {
        let mut out: Vec<char> = Vec::new();
        match self {
            DjourError::NotDjourDirectory(s) => {
                extend_str(&mut out, "Not a djour directory: ");
                extend_str(&mut out, s.as_str());
            },
            DjourError::InvalidTimeReference(s) => {
                extend_str(&mut out, "Invalid time reference: ");
                extend_str(&mut out, s.as_str());
            },
            DjourError::TagNotFound(s) => {
                extend_str(&mut out, "Tag not found: ");
                extend_str(&mut out, s.as_str());
            },
            DjourError::Io(s) => {
                extend_str(&mut out, "IO error: ");
                extend_str(&mut out, s.as_str());
            },
            DjourError::Config(s) => {
                extend_str(&mut out, "Configuration error: ");
                extend_str(&mut out, s.as_str());
            },
            DjourError::Template(s) => {
                extend_str(&mut out, "Template error: ");
                extend_str(&mut out, s.as_str());
            },
            DjourError::Editor(s) => {
                extend_str(&mut out, "Editor error: ");
                extend_str(&mut out, s.as_str());
            },
            DjourError::TomlDeserialize(s) => {
                extend_str(&mut out, "TOML deserialization error: ");
                extend_str(&mut out, s.as_str());
            },
            DjourError::TomlSerialize(s) => {
                extend_str(&mut out, "TOML serialization error: ");
                extend_str(&mut out, s.as_str());
            },
        }
        string_of(&out)
    }
}

/// What is added to the message of an error to help the user.
pub open spec fn directory_help() -> Seq<char> {
    "\n\nSuggestions:\n• Run 'djour init' in this directory to create a new journal\n• Navigate to an existing djour directory\n• Set DJOUR_ROOT environment variable to your journal path"@
}

/// What is suggested where a time reference was not understood.
pub open spec fn time_reference_help() -> Seq<char> {
    "'\n\nValid time references:\n• today, yesterday, tomorrow\n• monday, tuesday, ..., sunday (most recent)\n• last monday, next friday, etc.\n• Specific dates: YYYY-MM-DD (e.g., 2025-01-17)\n\nExamples:\ndjour today\ndjour last monday\ndjour 2025-01-15"@
}

/// What is suggested where no note carries the tag.
pub open spec fn tag_help() -> Seq<char> {
    "'\n\nSuggestions:\n• Check your tag spelling (tags are case-insensitive)\n• Use 'djour list' to see available notes\n• Tags must start with # in your notes (e.g., #work)\n• Try a broader query (e.g., 'work OR personal')"@
}

/// What is suggested where the editor could not be run.
pub open spec fn editor_help() -> Seq<char> {
    "\n\nSuggestions:\n• Check that your editor is installed and in PATH\n• Set EDITOR environment variable (e.g., export EDITOR=nano)\n• Configure editor: djour config editor 'vim'\n• Try a different editor: djour config editor 'notepad'"@
}

/// What is suggested where a mode was not understood.
pub open spec fn mode_help() -> Seq<char> {
    "\n\nValid modes: daily, weekly, monthly, single\nExample: djour config mode weekly"@
}

/// What is suggested where a date was not understood.
pub open spec fn date_format_help() -> Seq<char> {
    "\n\nExpected format: DD-MM-YYYY\nExample: djour list --from 17-01-2025 --to 31-01-2025"@
}

impl DjourError {
    /// The error's message with advice for the user, where there is advice
    /// for the kind of error; else the message alone.
    pub open spec fn advice(self) -> Seq<char> {
        match self {
            DjourError::NotDjourDirectory(path) => "Not a djour directory: "@ + path@
                + directory_help(),
            DjourError::InvalidTimeReference(text) => "Invalid time reference: '"@ + text@
                + time_reference_help(),
            DjourError::TagNotFound(tag) => "No content found matching query: '"@ + tag@
                + tag_help(),
            DjourError::Editor(msg) => msg@ + editor_help(),
            DjourError::Config(msg) => if contains_seq(msg@, "Invalid mode"@) {
                msg@ + mode_help()
            } else if contains_seq(msg@, "date format"@) {
                msg@ + date_format_help()
            } else {
                msg@
            },
            _ => self.label() + self.detail(),
        }
    }

    /// The error's message with advice for the user: see
    /// [`DjourError::advice`].
    pub fn display_with_suggestions(&self) -> (out: String)
        ensures
            out@ == self.advice(),
    {
        let mut out: Vec<char> = Vec::new();
        match self {
            DjourError::NotDjourDirectory(path) => {
                extend_str(&mut out, "Not a djour directory: ");
                extend_str(&mut out, path.as_str());
                extend_str(
                    &mut out,
                    "\n\nSuggestions:\n• Run 'djour init' in this directory to create a new journal\n• Navigate to an existing djour directory\n• Set DJOUR_ROOT environment variable to your journal path",
                );
            },
            DjourError::InvalidTimeReference(text) => {
                extend_str(&mut out, "Invalid time reference: '");
                extend_str(&mut out, text.as_str());
                extend_str(
                    &mut out,
                    "'\n\nValid time references:\n• today, yesterday, tomorrow\n• monday, tuesday, ..., sunday (most recent)\n• last monday, next friday, etc.\n• Specific dates: YYYY-MM-DD (e.g., 2025-01-17)\n\nExamples:\ndjour today\ndjour last monday\ndjour 2025-01-15",
                );
            },
            DjourError::TagNotFound(tag) => {
                extend_str(&mut out, "No content found matching query: '");
                extend_str(&mut out, tag.as_str());
                extend_str(
                    &mut out,
                    "'\n\nSuggestions:\n• Check your tag spelling (tags are case-insensitive)\n• Use 'djour list' to see available notes\n• Tags must start with # in your notes (e.g., #work)\n• Try a broader query (e.g., 'work OR personal')",
                );
            },
            DjourError::Editor(msg) => {
                extend_str(&mut out, msg.as_str());
                extend_str(
                    &mut out,
                    "\n\nSuggestions:\n• Check that your editor is installed and in PATH\n• Set EDITOR environment variable (e.g., export EDITOR=nano)\n• Configure editor: djour config editor 'vim'\n• Try a different editor: djour config editor 'notepad'",
                );
            },
            DjourError::Config(msg) => {
                let text = chars_of(msg.as_str());
                extend(&mut out, &text);
                if contains(&text, &chars_of("Invalid mode")) {
                    extend_str(
                        &mut out,
                        "\n\nValid modes: daily, weekly, monthly, single\nExample: djour config mode weekly",
                    );
                } else if contains(&text, &chars_of("date format")) {
                    extend_str(
                        &mut out,
                        "\n\nExpected format: DD-MM-YYYY\nExample: djour list --from 17-01-2025 --to 31-01-2025",
                    );
                }
            },
            _ => {
                return self.to_string();
            },
        }
        string_of(&out)
    }
}

} // verus!
