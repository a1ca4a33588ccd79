//! What requests carry, the limits a relay runs under, and the errors it
//! answers with.

use crate::text::{parse_u64, parsed_u64};
use vstd::prelude::*;

verus! {

/// The largest block that is accepted unless configured otherwise: one mebibyte.
pub const DEFAULT_MAX_BLOCK_SIZE: u64 = 1048576;

/// The number of blocks of one transfer that may wait at once unless
/// configured otherwise.
pub const DEFAULT_MAX_BLOCKS_PER_FILE: usize = 1024;

/// What a sender declares when asking for an access ID.
pub struct UpdateMetaSchema {
    pub file_name: String,
    pub file_size: u64,
}

/// What a sender declares of a block that it uploads.
pub struct FileInfo {
    pub filename: String,
    pub start: u64,
    pub end: u64,
    pub total: u64,
}

/// What a sender is told of a transfer's state.
pub struct StatusData {
    pub file_name: String,
    pub file_size: u64,
    pub is_using: bool,
    pub done: bool,
}

/// The bounds on what the relay holds.
#[derive(Clone, Copy, Debug, PartialEq, Eq, Structural)]
pub struct Limits {
    pub max_block_size: u64,
    pub max_blocks_per_file: usize,
}

impl Limits {
    /// The largest file that is accepted: as many blocks as may wait at once,
    /// each of the largest size.
    pub open spec fn max_total_size(self) -> int {
        self.max_block_size * self.max_blocks_per_file
    }

    /// The limits in absence of any setting.
    pub open spec fn default_limits() -> Limits {
        Limits {
            max_block_size: DEFAULT_MAX_BLOCK_SIZE,
            max_blocks_per_file: DEFAULT_MAX_BLOCKS_PER_FILE,
        }
    }

    /// The limit that a setting stands for: the number it holds, or
    /// `fallback` where it is absent, holds no number, or one above `most`.
    pub open spec fn setting_value(setting: Option<Seq<char>>, fallback: u64, most: u64) -> u64 {
        match setting {
            Some(text) => match parsed_u64(text) {
                Some(value) => if value <= most {
                    value
                } else {
                    fallback
                },
                None => fallback,
            },
            None => fallback,
        }
    }

    /// One mebibyte per block and 1024 blocks per file.
    pub fn defaults() -> (limits: Self)
        ensures
            limits == Self::default_limits(),
    {
        Limits {
            max_block_size: DEFAULT_MAX_BLOCK_SIZE,
            max_blocks_per_file: DEFAULT_MAX_BLOCKS_PER_FILE,
        }
    }

    fn setting(setting: Option<&str>, fallback: u64, most: u64) -> (value: u64)
        ensures
            value == Self::setting_value(
                match setting {
                    Some(text) => Some(text@),
                    None => None,
                },
                fallback,
                most,
            ),
    {
        match setting {
            Some(text) => match parse_u64(text) {
                Some(value) => if value <= most {
                    value
                } else {
                    fallback
                },
                None => fallback,
            },
            None => fallback,
        }
    }

    /// The limits that two settings stand for, each given as text where it
    /// is set. A setting that is absent or holds no number leaves the default
    /// in place.
    pub fn from_settings(max_block_size: Option<&str>, max_blocks_per_file: Option<&str>) -> (limits:
        Self)
        ensures
            limits.max_block_size == Self::setting_value(
                match max_block_size {
                    Some(text) => Some(text@),
                    None => None,
                },
                DEFAULT_MAX_BLOCK_SIZE,
                u64::MAX,
            ),
            limits.max_blocks_per_file == Self::setting_value(
                match max_blocks_per_file {
                    Some(text) => Some(text@),
                    None => None,
                },
                DEFAULT_MAX_BLOCKS_PER_FILE as u64,
                usize::MAX as u64,
            ),
    {
        let block_size = Self::setting(max_block_size, DEFAULT_MAX_BLOCK_SIZE, u64::MAX);
        let blocks = Self::setting(
            max_blocks_per_file,
            DEFAULT_MAX_BLOCKS_PER_FILE as u64,
            usize::MAX as u64,
        );
        Limits { max_block_size: block_size, max_blocks_per_file: blocks as usize }
    }

    /// Whether a file of `size` bytes is within the largest total.
    pub fn admits_total(&self, size: u64) -> (within: bool)
        ensures
            within == (size <= self.max_total_size()),
    {
        let block: u128 = self.max_block_size as u128;
        let count: u128 = self.max_blocks_per_file as u128;
        assert(block * count <= 0xffff_ffff_ffff_ffff * 0xffff_ffff_ffff_ffff) by (nonlinear_arith)
            requires
                0 <= block <= 0xffff_ffff_ffff_ffff,
                0 <= count <= 0xffff_ffff_ffff_ffff,
        ;
        size as u128 <= block * count
    }
}

/// Why a request was not served.
#[derive(Clone, Copy, Debug, PartialEq, Eq, Structural)]
pub enum ApiError {
    /// The download names no receiver.
    MissingRid,
    /// The download names no offset.
    MissingStart,
    /// The download's offset is no unsigned 64-bit number.
    InvalidStart,
    /// The download's access ID is unknown.
    AccessIdNotFound,
    /// The upload's access ID is unknown.
    MissingAccessId,
    /// The access ID whose state was asked for is unknown.
    NotFound,
    /// Another receiver holds the transfer.
    FileInUse,
    /// The transfer is not held by the receiver that asks.
    WrongReceiveId,
    /// The block found lies behind the offset asked for.
    WrongStart,
    /// The block was not uploaded in time; the receiver may ask again.
    BlockNotReady,
    /// The store did not take a change.
    Internal,
    /// The file is larger than the largest total.
    FileTooLarge,
    /// The block's range does not lie in the file.
    InvalidRange,
    /// The block is larger than the largest block.
    BlockTooLarge,
    /// The block's payload has not the length of its range.
    SizeMismatch,
    /// As many blocks of the transfer wait as may wait at once.
    TooManyBlocks,
    /// The upload has no first part.
    MissingInfoPart,
    /// A part of the upload has no name.
    FieldNameMissing,
    /// The first part of the upload is not named `info`.
    FirstNotInfo,
    /// A part of the upload could not be read to its end.
    ReadFailed,
    /// The first part of the upload does not describe a block.
    BadInfoJson,
    /// The upload has no second part.
    MissingFilePart,
    /// The second part of the upload is not named `file`.
    SecondNotFile,
}

impl ApiError {
    /// The HTTP status that goes with the error.
    pub open spec fn status_code(self) -> u16 {
        match self {
            ApiError::AccessIdNotFound | ApiError::MissingAccessId | ApiError::NotFound => 404,
            ApiError::BlockNotReady => 425,
            ApiError::Internal | ApiError::ReadFailed => 500,
            _ => 400,
        }
    }

    /// The message that goes with the error.
    pub open spec fn message_text(self) -> Seq<char> {
        match self {
            ApiError::MissingRid => "Missing Parameter: rid"@,
            ApiError::MissingStart => "Missing Parameter: start"@,
            ApiError::InvalidStart => "Invalid Parameter: start"@,
            ApiError::AccessIdNotFound => "Access ID Not Found"@,
            ApiError::MissingAccessId => "Missing Access ID"@,
            ApiError::NotFound => "Not Found"@,
            ApiError::FileInUse => "File already in use"@,
            ApiError::WrongReceiveId => "Wrong Receive ID"@,
            ApiError::WrongStart => "Wrong start position"@,
            ApiError::BlockNotReady => "Block not ready"@,
            ApiError::Internal => "Internal Server Error"@,
            ApiError::FileTooLarge => "File exceeds maximum allowed size"@,
            ApiError::InvalidRange => "Invalid file range"@,
            ApiError::BlockTooLarge => "Block size exceeds maximum limitation"@,
            ApiError::SizeMismatch => "Block size mismatch"@,
            ApiError::TooManyBlocks => "Maximum number of blocks per file reached"@,
            ApiError::MissingInfoPart => "Bad Request: Missing info part"@,
            ApiError::FieldNameMissing => "Field name is missing"@,
            ApiError::FirstNotInfo => "First part must be info"@,
            ApiError::ReadFailed => "Failed to read file data"@,
            ApiError::BadInfoJson => "Failed to parse info json"@,
            ApiError::MissingFilePart => "Missing file part"@,
            ApiError::SecondNotFile => "Second part must be file"@,
        }
    }

    /// The HTTP status that goes with the error.
    pub fn status(&self) -> (code: u16)
        ensures
            code == self.status_code(),
    {
        match self {
            ApiError::AccessIdNotFound | ApiError::MissingAccessId | ApiError::NotFound => 404,
            ApiError::BlockNotReady => 425,
            ApiError::Internal | ApiError::ReadFailed => 500,
            _ => 400,
        }
    }

    /// The message that goes with the error.
    pub fn message(&self) -> (text: &'static str)
        ensures
            text@ == self.message_text(),
    {
        match self {
            ApiError::MissingRid => "Missing Parameter: rid",
            ApiError::MissingStart => "Missing Parameter: start",
            ApiError::InvalidStart => "Invalid Parameter: start",
            ApiError::AccessIdNotFound => "Access ID Not Found",
            ApiError::MissingAccessId => "Missing Access ID",
            ApiError::NotFound => "Not Found",
            ApiError::FileInUse => "File already in use",
            ApiError::WrongReceiveId => "Wrong Receive ID",
            ApiError::WrongStart => "Wrong start position",
            ApiError::BlockNotReady => "Block not ready",
            ApiError::Internal => "Internal Server Error",
            ApiError::FileTooLarge => "File exceeds maximum allowed size",
            ApiError::InvalidRange => "Invalid file range",
            ApiError::BlockTooLarge => "Block size exceeds maximum limitation",
            ApiError::SizeMismatch => "Block size mismatch",
            ApiError::TooManyBlocks => "Maximum number of blocks per file reached",
            ApiError::MissingInfoPart => "Bad Request: Missing info part",
            ApiError::FieldNameMissing => "Field name is missing",
            ApiError::FirstNotInfo => "First part must be info",
            ApiError::ReadFailed => "Failed to read file data",
            ApiError::BadInfoJson => "Failed to parse info json",
            ApiError::MissingFilePart => "Missing file part",
            ApiError::SecondNotFile => "Second part must be file",
        }
    }
}

/// The frame of every answer in JSON: the HTTP status once more, whether the
/// request was served, and a message where there is one to give.
pub struct Envelope {
    pub code: u16,
    pub success: bool,
    pub message: Option<String>,
}

impl Envelope {
    /// The frame of an answer to a request that was served: status 200.
    pub fn served() -> (envelope: Self)
        ensures
            envelope.code == 200,
            envelope.success,
            envelope.message is None,
    {
        Envelope { code: 200, success: true, message: None }
    }

    /// The frame of an answer to a request that was not served: the error's
    /// status and message.
    pub fn failed(error: ApiError) -> (envelope: Self)
        ensures
            envelope.code == error.status_code(),
            !envelope.success,
            envelope.message matches Some(text) && text@ == error.message_text(),
    {
        Envelope { code: error.status(), success: false, message: Some(error.message().to_owned()) }
    }

    /// The frame of the answer that `outcome` stands for.
    pub fn of(outcome: &Result<(), ApiError>) -> (envelope: Self)
        ensures
            envelope.code == match *outcome {
                Ok(_) => 200u16,
                Err(e) => e.status_code(),
            },
            envelope.success == (*outcome is Ok),
            match *outcome {
                Ok(_) => envelope.message is None,
                Err(e) => envelope.message matches Some(text) && text@ == e.message_text(),
            },
    {
        match outcome {
            Ok(_) => Self::served(),
            Err(e) => Self::failed(*e),
        }
    }
}

} // verus!
