//! Records and helpers for a user-interface session layer: its error codes,
//! session states, path validation facts, and machine information.

use vstd::prelude::*;
use crate::path::{spec_path_starts_with};
use crate::scanner::{spec_protected, spec_str_starts_with};
use crate::config::ScanOptions;

verus! {

/// Errors surfaced to an interface layer.
#[derive(Debug, Clone, PartialEq)]
pub enum GuiError {
    Config { message: String },
    Scan { message: String },
    Planning { message: String },
    Execution { message: String },
    SessionNotFound { id: String },
    InvalidOperation { message: String },
    FileSystem { message: String },
    Serialization { message: String },
    Core(String),
}

/// An error in the shape an interface consumes: a stable code, the message,
/// and optional details.
#[derive(Debug, Clone, PartialEq)]
pub struct FrontendError {
    pub code: String,
    pub message: String,
    pub details: Option<String>,
}

impl GuiError {
    /// The stable code of this error kind.
    pub fn error_code(&self) -> (r: String)
        ensures
            r@ == spec_error_code(*self),
    {
        match self {
            GuiError::Config { .. } => "CONFIG_ERROR".to_owned(),
            GuiError::Scan { .. } => "SCAN_ERROR".to_owned(),
            GuiError::Planning { .. } => "PLANNING_ERROR".to_owned(),
            GuiError::Execution { .. } => "EXECUTION_ERROR".to_owned(),
            GuiError::SessionNotFound { .. } => "SESSION_NOT_FOUND".to_owned(),
            GuiError::InvalidOperation { .. } => "INVALID_OPERATION".to_owned(),
            GuiError::FileSystem { .. } => "FILE_SYSTEM_ERROR".to_owned(),
            GuiError::Serialization { .. } => "SERIALIZATION_ERROR".to_owned(),
            GuiError::Core(_) => "CORE_ERROR".to_owned(),
        }
    }

    /// The carried message text.
    pub fn message_text(&self) -> (r: String)
        ensures
            r@ == spec_message_text(*self),
    {
        match self {
            GuiError::Config { message } => message.clone(),
            GuiError::Scan { message } => message.clone(),
            GuiError::Planning { message } => message.clone(),
            GuiError::Execution { message } => message.clone(),
            GuiError::SessionNotFound { id } => id.clone(),
            GuiError::InvalidOperation { message } => message.clone(),
            GuiError::FileSystem { message } => message.clone(),
            GuiError::Serialization { message } => message.clone(),
            GuiError::Core(message) => message.clone(),
        }
    }

    /// Details beyond the message: the session id, for a missing session.
    pub fn error_details(&self) -> (r: Option<String>)
        ensures
            match *self {
                GuiError::SessionNotFound { id } => r is Some && r->0@ == "Session ID: "@ + id@,
                _ => r is None,
            },
    {
        match self {
            GuiError::SessionNotFound { id } => Some(
                "Session ID: ".to_owned().concat(id.as_str()),
            ),
            _ => None,
        }
    }

    /// This error in the interface shape.
    pub fn to_frontend_error(&self) -> (r: FrontendError)
        ensures
            r.code@ == spec_error_code(*self),
            r.message@ == spec_message_text(*self),
            match *self {
                GuiError::SessionNotFound { id } => r.details is Some && r.details->0@
                    == "Session ID: "@ + id@,
                _ => r.details is None,
            },
    {
        FrontendError {
            code: self.error_code(),
            message: self.message_text(),
            details: self.error_details(),
        }
    }
}

pub open spec fn spec_error_code(e: GuiError) -> Seq<char> {
    match e {
        GuiError::Config { .. } => "CONFIG_ERROR"@,
        GuiError::Scan { .. } => "SCAN_ERROR"@,
        GuiError::Planning { .. } => "PLANNING_ERROR"@,
        GuiError::Execution { .. } => "EXECUTION_ERROR"@,
        GuiError::SessionNotFound { .. } => "SESSION_NOT_FOUND"@,
        GuiError::InvalidOperation { .. } => "INVALID_OPERATION"@,
        GuiError::FileSystem { .. } => "FILE_SYSTEM_ERROR"@,
        GuiError::Serialization { .. } => "SERIALIZATION_ERROR"@,
        GuiError::Core(_) => "CORE_ERROR"@,
    }
}

pub open spec fn spec_message_text(e: GuiError) -> Seq<char> {
    match e {
        GuiError::Config { message } => message@,
        GuiError::Scan { message } => message@,
        GuiError::Planning { message } => message@,
        GuiError::Execution { message } => message@,
        GuiError::SessionNotFound { id } => id@,
        GuiError::InvalidOperation { message } => message@,
        GuiError::FileSystem { message } => message@,
        GuiError::Serialization { message } => message@,
        GuiError::Core(message) => message@,
    }
}

/// Where a session stands.
#[derive(Debug, Clone, Copy, PartialEq, Eq, Structural)]
pub enum SessionStatus {
    Created,
    Running,
    Completed,
    Failed,
    Cancelled,
}

/// The facts an interface shows about one path.
#[derive(Debug, Clone, PartialEq)]
pub struct PathValidation {
    pub is_valid: bool,
    pub exists: bool,
    pub is_directory: bool,
    pub is_readable: bool,
    pub is_writable: bool,
    pub is_long_path: bool,
    pub is_network_path: bool,
    pub is_system_protected: bool,
    pub warnings: Vec<String>,
    pub errors: Vec<String>,
}

/// The machine facts an interface shows.
#[derive(Debug, Clone, PartialEq)]
pub struct SystemInfo {
    pub os_type: String,
    pub arch: String,
    pub long_path_support: bool,
    pub available_drives: Vec<DriveInfo>,
}

/// One mounted volume.
#[derive(Debug, Clone, PartialEq)]
pub struct DriveInfo {
    pub path: String,
    pub label: String,
    pub drive_type: DriveType,
    pub total_space: Option<u64>,
    pub free_space: Option<u64>,
}

#[derive(Debug, Clone, Copy, PartialEq, Eq, Structural)]
pub enum DriveType {
    Fixed,
    Removable,
    Network,
    Compact,
    Ram,
    Unknown,
}

/// Whether a path lies in a protected system tree.
pub fn is_system_protected_path(path: &str) -> (r: bool)
    ensures
        r == spec_protected(path@, Seq::<String>::empty()),
{
    let walker = crate::scanner::DirectoryWalker::new(
        ScanOptions {
            normalization: crate::pattern::NormalizationOptions::standard(),
            follow_junctions: false,
            system_protections: true,
            max_depth: None,
            excluded_paths: Vec::new(),
            parallel_threads: None,
        },
    );
    walker.is_protected_path(path)
}

/// Whether the long-path-safe interfaces this engine relies on are present.
pub fn check_long_path_support() -> (r: bool)
    ensures
        r,
{
    true
}

/// The volumes shown when the platform offers no enumeration: the root
/// volume alone, as a fixed drive.
pub fn get_available_drives() -> (r: Vec<DriveInfo>)
    ensures
        r@.len() == 1,
        r@[0].drive_type == DriveType::Fixed,
        r@[0].total_space is None,
        r@[0].free_space is None,
{
    let mut v: Vec<DriveInfo> = Vec::new();
    v.push(
        DriveInfo {
            path: "/".to_owned(),
            label: "Root".to_owned(),
            drive_type: DriveType::Fixed,
            total_space: None,
            free_space: None,
        },
    );
    v
}

/// The kind assumed of a volume when no probe is made.
pub fn get_drive_type(path: &str) -> (r: DriveType)
    ensures
        r == DriveType::Fixed,
{
    let _ = path;
    DriveType::Fixed
}

} // verus!
