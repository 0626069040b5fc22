//! What FastFs tells its host about files and about failures of the file system.

use vstd::prelude::*;
use crate::wire::{EntryKind, EntryRecord, ErrorReport, RecordModel, ReportModel};

verus! {

/// What kind of failure of the file system it is.
#[derive(Clone, Copy, Debug, PartialEq, Eq, Structural)]
pub enum IoFailureKind {
    NotFound,
    PermissionDenied,
    InvalidInput,
    InvalidData,
    Other,
}

/// A failure of the file system.
#[derive(Debug)]
pub struct IoFailure {
    pub kind: IoFailureKind,
    pub message: String,
}

/// What a failure of the file system says.
pub struct FailureModel {
    pub kind: IoFailureKind,
    pub message: Seq<char>,
}

impl View for IoFailure {
    type V = FailureModel;

    open spec fn view(&self) -> FailureModel {
        FailureModel { kind: self.kind, message: self.message@ }
    }
}

/// The category under which a failure is reported.
pub open spec fn category_of(kind: IoFailureKind) -> Seq<char> {
    match kind {
        IoFailureKind::NotFound => "ObjectNotFound"@,
        IoFailureKind::PermissionDenied => "PermissionDenied"@,
        IoFailureKind::InvalidInput => "InvalidArgument"@,
        IoFailureKind::InvalidData => "InvalidArgument"@,
        IoFailureKind::Other => "NotSpecified"@,
    }
}

/// The report of a failure at a path.
pub open spec fn io_report(code: Seq<char>, path: Seq<char>, failure: FailureModel) -> ReportModel {
    ReportModel {
        code,
        category: category_of(failure.kind),
        message: path + ": "@ + failure.message,
        path: Some(path),
    }
}

/// The report of a failure at a path.
pub fn io_error_report(code: &str, path: &str, failure: &IoFailure) -> (result: ErrorReport)
    ensures
        result@ == io_report(code@, path@, failure@),
{
    let category: &str = match failure.kind {
        IoFailureKind::NotFound => "ObjectNotFound",
        IoFailureKind::PermissionDenied => "PermissionDenied",
        IoFailureKind::InvalidInput => "InvalidArgument",
        IoFailureKind::InvalidData => "InvalidArgument",
        IoFailureKind::Other => "NotSpecified",
    };
    let message: String = path.to_owned().concat(": ").concat(failure.message.as_str());
    ErrorReport::about(code, category, message, path.to_owned())
}

/// What is known of a file.
#[derive(Clone, Copy, Debug, PartialEq, Eq, Structural)]
pub struct FileFacts {
    pub is_symlink: bool,
    pub is_dir: bool,
    pub is_file: bool,
    pub length: u64,
    /// The time of the last change in milliseconds since 1970, where it is known and not before.
    pub modified_milliseconds: Option<u128>,
    pub readonly: bool,
}

/// What a file is.
pub open spec fn kind_of(facts: FileFacts) -> EntryKind {
    if facts.is_symlink {
        EntryKind::Symlink
    } else if facts.is_dir {
        EntryKind::Directory
    } else if facts.is_file {
        EntryKind::File
    } else {
        EntryKind::Other
    }
}

/// The entry for a file: a length only for one that is a file, and a time only where it can be
/// counted.
pub open spec fn file_record(path: Seq<char>, facts: FileFacts) -> RecordModel {
    RecordModel {
        path,
        kind: kind_of(facts),
        length: if facts.is_file {
            Some(facts.length)
        } else {
            None
        },
        modified: match facts.modified_milliseconds {
            Some(time) => if time <= u64::MAX {
                Some(time as u64)
            } else {
                None
            },
            None => None,
        },
        readonly: facts.readonly,
    }
}

/// The entry for a file.
pub fn metadata_record(path: &str, facts: &FileFacts) -> (result: EntryRecord)
    ensures
        result@ == file_record(path@, *facts),
{
    let kind: EntryKind = if facts.is_symlink {
        EntryKind::Symlink
    } else if facts.is_dir {
        EntryKind::Directory
    } else if facts.is_file {
        EntryKind::File
    } else {
        EntryKind::Other
    };
    let length: Option<u64> = if facts.is_file {
        Some(facts.length)
    } else {
        None
    };
    let modified: Option<u64> = match facts.modified_milliseconds {
        Some(time) => if time <= u64::MAX as u128 {
            Some(time as u64)
        } else {
            None
        },
        None => None,
    };
    EntryRecord {
        path: path.to_owned(),
        kind,
        length,
        modified_unix_milliseconds: modified,
        readonly: facts.readonly,
    }
}

} // verus!
