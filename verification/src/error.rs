//! What a decode call can fail with.

use vstd::prelude::*;
use vstd::string::StringExecFns;
use crate::text::{decimal, decimal_text};

verus! {

/// Why an envelope is refused.
#[derive(Debug, PartialEq, Eq, Clone, Copy)]
pub enum EnvelopeFault {
    /// The envelope has no `value` member.
    MissingValue,
    /// The envelope has two `versions` members.
    DuplicateVersions,
    /// The envelope has two `value` members.
    DuplicateValue,
    /// The envelope has a member that is neither `versions` nor `value`.
    UnexpectedMember,
    /// The `versions` member is not a record of unsigned numbers that fit a
    /// version, each under a name of its own.
    BadVersions,
    /// What should be an envelope of a single type is neither a record nor a
    /// list.
    NotAnEnvelope,
    /// The envelope of a single type, written as a list, is empty.
    MissingVersion,
    /// In the envelope of a single type, `version` is not an unsigned number
    /// that fits a version.
    BadVersion,
    /// The envelope of a single type has two `version` members.
    DuplicateVersion,
    /// In the envelope of a single type, `value` was met before `version`.
    ValueBeforeVersion,
}

impl EnvelopeFault {
    /// The words in which the fault is reported.
    pub open spec fn message_text(self) -> Seq<char> {
        match self {
            EnvelopeFault::MissingValue => "missing field `value`"@,
            EnvelopeFault::DuplicateVersions => "duplicate field `versions`"@,
            EnvelopeFault::DuplicateValue => "duplicate field `value`"@,
            EnvelopeFault::UnexpectedMember => "unknown field in a versioned struct"@,
            EnvelopeFault::BadVersions => "`versions` must map each type name to one version number"@,
            EnvelopeFault::NotAnEnvelope => "expected a versioned struct"@,
            EnvelopeFault::MissingVersion => "missing field `version`"@,
            EnvelopeFault::BadVersion => "`version` must be a version number"@,
            EnvelopeFault::DuplicateVersion => "duplicate field `version`"@,
            EnvelopeFault::ValueBeforeVersion => "Version must come before the value in a versioned struct"@,
        }
    }

    /// The words in which the fault is reported.
    pub fn message(&self) -> (text: String)
        ensures
            text@ == self.message_text(),
    {
        match self {
            EnvelopeFault::MissingValue => "missing field `value`".to_owned(),
            EnvelopeFault::DuplicateVersions => "duplicate field `versions`".to_owned(),
            EnvelopeFault::DuplicateValue => "duplicate field `value`".to_owned(),
            EnvelopeFault::UnexpectedMember => "unknown field in a versioned struct".to_owned(),
            EnvelopeFault::BadVersions => "`versions` must map each type name to one version number".to_owned(),
            EnvelopeFault::NotAnEnvelope => "expected a versioned struct".to_owned(),
            EnvelopeFault::MissingVersion => "missing field `version`".to_owned(),
            EnvelopeFault::BadVersion => "`version` must be a version number".to_owned(),
            EnvelopeFault::DuplicateVersion => "duplicate field `version`".to_owned(),
            EnvelopeFault::ValueBeforeVersion => "Version must come before the value in a versioned struct".to_owned(),
        }
    }
}

/// Why a decode call failed.
#[derive(Debug, PartialEq, Eq)]
pub enum DecodeError {
    /// The bytes name a version that the type does not have.
    UnknownVersion { name: String, version: u32 },
    /// The envelope is not one.
    EnvelopeMalformed(EnvelopeFault),
    /// The migration step from `from_version` to the next failed, for the
    /// reason that it gave.
    MigrationFailure { name: String, from_version: u32, reason: String },
    /// The migration step from `from_version` returned something that is not
    /// a snapshot of the next version.
    MigrationShape { name: String, from_version: u32 },
    /// The kind to decode names a type that the registry does not have.
    UnknownType { index: usize },
    /// A list was expected and something else was found.
    ExpectedList,
    /// A record of the type was expected and something else was found.
    ExpectedRecord { name: String },
    /// The record of the type lacks a field of the version that it was
    /// written with, and the field is not of optional kind.
    MissingField { name: String, field: String },
}

/// The mathematical content of a [`DecodeError`].
pub ghost enum DecodeErrorView {
    UnknownVersion { name: Seq<char>, version: u32 },
    EnvelopeMalformed(EnvelopeFault),
    MigrationFailure { name: Seq<char>, from_version: u32, reason: Seq<char> },
    MigrationShape { name: Seq<char>, from_version: u32 },
    UnknownType { index: usize },
    ExpectedList,
    ExpectedRecord { name: Seq<char> },
    MissingField { name: Seq<char>, field: Seq<char> },
}

impl View for DecodeError {
    type V = DecodeErrorView;

    open spec fn view(&self) -> DecodeErrorView {
        match self {
            DecodeError::UnknownVersion { name, version } => DecodeErrorView::UnknownVersion {
                name: name@,
                version: *version,
            },
            DecodeError::EnvelopeMalformed(fault) => DecodeErrorView::EnvelopeMalformed(*fault),
            DecodeError::MigrationFailure { name, from_version, reason } => DecodeErrorView::MigrationFailure {
                name: name@,
                from_version: *from_version,
                reason: reason@,
            },
            DecodeError::MigrationShape { name, from_version } => DecodeErrorView::MigrationShape {
                name: name@,
                from_version: *from_version,
            },
            DecodeError::UnknownType { index } => DecodeErrorView::UnknownType { index: *index },
            DecodeError::ExpectedList => DecodeErrorView::ExpectedList,
            DecodeError::ExpectedRecord { name } => DecodeErrorView::ExpectedRecord { name: name@ },
            DecodeError::MissingField { name, field } => DecodeErrorView::MissingField {
                name: name@,
                field: field@,
            },
        }
    }
}

impl DecodeErrorView {
    /// The words in which the failure is reported.
    pub open spec fn message_text(self) -> Seq<char> {
        match self {
            DecodeErrorView::UnknownVersion { name, version } => "Invalid version for "@ + name + " (got "@
                + decimal_text(version as nat) + ")"@,
            DecodeErrorView::EnvelopeMalformed(fault) => fault.message_text(),
            DecodeErrorView::MigrationFailure { name, from_version, reason } => "Migration of "@ + name
                + " from version "@ + decimal_text(from_version as nat) + " failed: "@ + reason,
            DecodeErrorView::MigrationShape { name, from_version } => "Migration of "@ + name + " from version "@
                + decimal_text(from_version as nat) + " returned another shape"@,
            DecodeErrorView::UnknownType { index } => "Unknown type with index "@ + decimal_text(index as nat),
            DecodeErrorView::ExpectedList => "expected a list"@,
            DecodeErrorView::ExpectedRecord { name } => "expected a record of "@ + name,
            DecodeErrorView::MissingField { name, field } => "missing field `"@ + field + "` of "@ + name,
        }
    }
}

impl DecodeError {
    /// The words in which the failure is reported.
    pub fn message(&self) -> (text: String)
        ensures
            text@ == self@.message_text(),
    {
        match self {
            DecodeError::UnknownVersion { name, version } => "Invalid version for ".to_owned().concat(
                name.as_str(),
            ).concat(" (got ").concat(decimal(*version as u64).as_str()).concat(")"),
            DecodeError::EnvelopeMalformed(fault) => fault.message(),
            DecodeError::MigrationFailure { name, from_version, reason } => "Migration of ".to_owned().concat(
                name.as_str(),
            ).concat(" from version ").concat(decimal(*from_version as u64).as_str()).concat(" failed: ").concat(
                reason.as_str(),
            ),
            DecodeError::MigrationShape { name, from_version } => "Migration of ".to_owned().concat(
                name.as_str(),
            ).concat(" from version ").concat(decimal(*from_version as u64).as_str()).concat(
                " returned another shape",
            ),
            DecodeError::UnknownType { index } => "Unknown type with index ".to_owned().concat(
                decimal(*index as u64).as_str(),
            ),
            DecodeError::ExpectedList => "expected a list".to_owned(),
            DecodeError::ExpectedRecord { name } => "expected a record of ".to_owned().concat(name.as_str()),
            DecodeError::MissingField { name, field } => "missing field `".to_owned().concat(field.as_str()).concat(
                "` of ",
            ).concat(name.as_str()),
        }
    }
}

} // verus!
