//! The error type shared by the registry, the collector and the executor:
//! an error kind plus optional diagnostic context (originating file, line,
//! and the name of the hook being processed).

use vstd::prelude::*;
use vstd::string::StringExecFns;

use crate::text;

verus! {

/// What went wrong, as a taxonomy rather than a wrapped foreign type.
#[derive(Debug)]
pub enum ErrorKind {
    /// A declared provider name has no implementation.
    ProviderNotFound(String),
    /// Malformed provider configuration or other rejected input.
    InvalidInput(String),
    /// The hook subprocess did not exit cleanly: a non-zero exit code or
    /// the terminating signal. At most one of the two fields is set.
    HookExecutionFailed(Option<i32>, Option<i32>),
    /// A filesystem or process-spawn failure, carrying its description.
    IoError(String),
}

/// An error with optional diagnostic annotations, attached after
/// construction and used only for reporting, never for control flow.
#[derive(Debug)]
pub struct FisherError {
    kind: ErrorKind,
    file: Option<String>,
    line: Option<u32>,
    hook: Option<String>,
}

/// The one-line description of an error kind, without its parameters.
pub open spec fn spec_description(kind: ErrorKind) -> Seq<char> {
    match kind {
        ErrorKind::ProviderNotFound(_) => "provider not found"@,
        ErrorKind::InvalidInput(_) => "invalid input"@,
        ErrorKind::HookExecutionFailed(_, _) => "hook returned non-zero exit code"@,
        ErrorKind::IoError(_) => "i/o error"@,
    }
}

/// The full human-readable message of an error kind.
pub open spec fn spec_message(kind: ErrorKind) -> Seq<char> {
    match kind {
        ErrorKind::ProviderNotFound(name) => "Provider "@ + name@ + " not found"@,
        ErrorKind::InvalidInput(detail) => "invalid input: "@ + detail@,
        ErrorKind::HookExecutionFailed(code, signal) => if code is Some {
            "hook returned non-zero exit code: "@ + text::spec_decimal_signed(
                code->0 as int,
            )
        } else if signal is Some {
            "hook stopped with signal "@ + text::spec_decimal_signed(signal->0 as int)
        } else {
            "hook execution failed"@
        },
        ErrorKind::IoError(detail) => detail@,
    }
}

/// The rendered location annotation: the file, and the line when known.
pub open spec fn spec_location(file: Seq<char>, line: Option<u32>) -> Seq<char> {
    match line {
        Some(l) => "file "@ + file + ", line "@ + text::spec_decimal(l as int),
        None => "file "@ + file,
    }
}

impl FisherError {
    /// The error kind this error was built from.
    pub closed spec fn spec_kind(&self) -> ErrorKind {
        self.kind
    }

    /// The annotated originating file, if any.
    pub closed spec fn spec_file(&self) -> Option<String> {
        self.file
    }

    /// The annotated originating line, if any.
    pub closed spec fn spec_line(&self) -> Option<u32> {
        self.line
    }

    /// The annotated hook name, if any.
    pub closed spec fn spec_hook(&self) -> Option<String> {
        self.hook
    }

    /// A fresh error of the given kind, with no annotations.
    pub fn new(kind: ErrorKind) -> (r: FisherError)
        ensures
            r.spec_kind() == kind,
            r.spec_file() is None,
            r.spec_line() is None,
            r.spec_hook() is None,
    {
        FisherError { kind, file: None, line: None, hook: None }
    }

    /// Annotates the error with its originating file.
    pub fn set_file(&mut self, file: String)
        ensures
            final(self).spec_file() == Some(file),
            final(self).spec_kind() == old(self).spec_kind(),
            final(self).spec_line() == old(self).spec_line(),
            final(self).spec_hook() == old(self).spec_hook(),
    {
        self.file = Some(file);
    }

    /// Annotates the error with its originating line.
    pub fn set_line(&mut self, line: u32)
        ensures
            final(self).spec_line() == Some(line),
            final(self).spec_kind() == old(self).spec_kind(),
            final(self).spec_file() == old(self).spec_file(),
            final(self).spec_hook() == old(self).spec_hook(),
    {
        self.line = Some(line);
    }

    /// Annotates the error with the hook that was being processed.
    pub fn set_hook_name(&mut self, hook: String)
        ensures
            final(self).spec_hook() == Some(hook),
            final(self).spec_kind() == old(self).spec_kind(),
            final(self).spec_file() == old(self).spec_file(),
            final(self).spec_line() == old(self).spec_line(),
    {
        self.hook = Some(hook);
    }

    /// The rendered location annotation, when a file was recorded: the
    /// file, and the line when one was recorded too.
    pub fn location(&self) -> (r: Option<String>)
        ensures
            match self.spec_file() {
                Some(file) => r matches Some(s) && s@ == spec_location(file@, self.spec_line()),
                None => r is None,
            },
    {
        match &self.file {
            Some(file) => {
                let mut s = String::from_str("file ");
                s.append(file.as_str());
                match &self.line {
                    Some(line) => {
                        s.append(", line ");
                        let rendered = text::u32_to_string(*line);
                        s.append(rendered.as_str());
                        Some(s)
                    },
                    None => Some(s),
                }
            },
            None => None,
        }
    }

    /// The name of the hook that was being processed, if recorded.
    pub fn processing(&self) -> (r: Option<String>)
        ensures
            r == self.spec_hook(),
    {
        match &self.hook {
            Some(hook) => Some(hook.clone()),
            None => None,
        }
    }

    /// The error kind, for callers that dispatch on it.
    pub fn kind(&self) -> (r: &ErrorKind)
        ensures
            *r == self.spec_kind(),
    {
        &self.kind
    }

    /// The one-line description of the error, without its parameters.
    pub fn description(&self) -> (r: &'static str)
        ensures
            r@ == spec_description(self.spec_kind()),
    {
        match &self.kind {
            ErrorKind::ProviderNotFound(_) => "provider not found",
            ErrorKind::InvalidInput(_) => "invalid input",
            ErrorKind::HookExecutionFailed(_, _) => "hook returned non-zero exit code",
            ErrorKind::IoError(_) => "i/o error",
        }
    }

    /// The full human-readable message of the error.
    pub fn message(&self) -> (r: String)
        ensures
            r@ == spec_message(self.spec_kind()),
    {
        match &self.kind {
            ErrorKind::ProviderNotFound(name) => {
                let mut s = String::from_str("Provider ");
                s.append(name.as_str());
                s.append(" not found");
                s
            },
            ErrorKind::InvalidInput(detail) => {
                let mut s = String::from_str("invalid input: ");
                s.append(detail.as_str());
                s
            },
            ErrorKind::HookExecutionFailed(code, signal) => {
                match code {
                    Some(c) => {
                        let mut s = String::from_str("hook returned non-zero exit code: ");
                        let rendered = text::i32_to_string(*c);
                        s.append(rendered.as_str());
                        s
                    },
                    None => match signal {
                        Some(sig) => {
                            let mut s = String::from_str("hook stopped with signal ");
                            let rendered = text::i32_to_string(*sig);
                            s.append(rendered.as_str());
                            s
                        },
                        None => String::from_str("hook execution failed"),
                    },
                }
            },
            ErrorKind::IoError(detail) => detail.clone(),
        }
    }
}

/// `Result` with this crate's error type.
pub type FisherResult<T> = Result<T, FisherError>;

} // verus!
