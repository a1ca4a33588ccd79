//! The transfer itself: issuing an access ID, reporting a transfer's state,
//! taking blocks from the sender, handing them to the receiver, and marking
//! the transfer done.
//!
//! The functions here decide; they neither wait nor talk to a peer. Where a
//! request has to wait or to read more of its body, the function returns what
//! is to be done next, and is called again with what came of it.

use crate::db::{
    block_key, block_key_text, block_prefix, block_prefix_text, colon_free, lemma_block_key_owner,
    FileBlock, FileBlockView, MetaInfo, MetaView,
};
use crate::entity::{ApiError, FileInfo, Limits, StatusData, UpdateMetaSchema};
use crate::memdb::{
    expiry, keys_with_prefix, live_at, lemma_fewer_keys_fewer_matches, lemma_put_adds_one_match, CacheEntry,
    MemDB,
};
use crate::nanoid::{generate, is_id_text, DEFAULT_SIZE};
use crate::text::{decimal, parse_u64, parsed_u64, push_padded, same_text};
use vstd::prelude::*;

verus! {

/// How long a transfer is kept: 24 hours, in seconds.
pub const META_TTL_SECS: u64 = 86400;

/// How long a block waits for the receiver: 60 seconds.
pub const BLOCK_TTL_SECS: u64 = 60;

/// How many identifiers are tried for a new transfer before giving up.
pub const ID_ATTEMPTS: u32 = 16;

/// The registry of transfers.
pub type MetaMap = Map<Seq<char>, CacheEntry<MetaInfo>>;

/// The registry of waiting blocks.
pub type BlockMap = Map<Seq<char>, CacheEntry<FileBlock>>;

/// Whether `after` is `before` with the record `record`, expiring at `exp`,
/// put under `key`.
pub open spec fn meta_put(
    before: MetaMap,
    after: MetaMap,
    key: Seq<char>,
    record: MetaView,
    exp: u64,
) -> bool {
    &&& after.contains_key(key)
    &&& after[key].value@ == record
    &&& after[key].exp == exp
    &&& after == before.insert(key, after[key])
}

/// Whether `after` is `before` with the block `block`, expiring at `exp`,
/// put under `key`.
pub open spec fn block_put(
    before: BlockMap,
    after: BlockMap,
    key: Seq<char>,
    block: FileBlockView,
    exp: u64,
) -> bool {
    &&& after.contains_key(key)
    &&& after[key].value@ == block
    &&& after[key].exp == exp
    &&& after == before.insert(key, after[key])
}

/// Whether `id` has the form of an access ID: five characters, each a digit
/// or a lowercase letter.
pub open spec fn is_access_id(id: Seq<char>) -> bool {
    id.len() == DEFAULT_SIZE && is_id_text(id)
}

/// What comes of issuing `id` for a file: refused where the file is larger
/// than the largest total, taken where a transfer is kept under `id`, issued
/// otherwise.
#[derive(Clone, Copy, Debug, PartialEq, Eq, Structural)]
pub enum Issue {
    Issued,
    Taken,
    TooLarge,
}

/// What comes of issuing `id` for a file of `file_size` bytes.
pub open spec fn issue_of(meta: MetaMap, limits: Limits, id: Seq<char>, file_size: u64) -> Issue {
    if file_size > limits.max_total_size() {
        Issue::TooLarge
    } else if meta.contains_key(id) {
        Issue::Taken
    } else {
        Issue::Issued
    }
}

/// Opens a transfer under `id` for the file described, to be kept for 24
/// hours from `now`, unless the file is too large or `id` is in use.
pub fn issue_id(
    meta: &mut MemDB<MetaInfo>,
    limits: &Limits,
    id: &str,
    file_name: &str,
    file_size: u64,
    now: u64,
) -> (issue: Issue)
    ensures
        issue == issue_of(old(meta)@, *limits, id@, file_size),
        issue is Issued ==> meta_put(
            old(meta)@,
            final(meta)@,
            id@,
            MetaView::issued(file_name@, file_size),
            expiry(now, META_TTL_SECS),
        ),
        !(issue is Issued) ==> final(meta)@ == old(meta)@,
{
    if !limits.admits_total(file_size) {
        return Issue::TooLarge;
    }
    if meta.contains_key(id) {
        return Issue::Taken;
    }
    let record = MetaInfo::new(file_name.to_owned(), file_size);
    let _ = meta.insert(id, record, META_TTL_SECS, now);
    Issue::Issued
}

/// Opens a transfer for the file described under a new access ID, and
/// returns the ID. An ID that is in use is passed over for another; after
/// sixteen of them the request fails.
pub fn get_id(meta: &mut MemDB<MetaInfo>, limits: &Limits, query: &UpdateMetaSchema, now: u64) -> (id:
    Result<String, ApiError>)
    ensures
        match id {
            Ok(id) => {
                &&& is_access_id(id@)
                &&& query.file_size <= limits.max_total_size()
                &&& !old(meta)@.contains_key(id@)
                &&& meta_put(
                    old(meta)@,
                    final(meta)@,
                    id@,
                    MetaView::issued(query.file_name@, query.file_size),
                    expiry(now, META_TTL_SECS),
                )
            },
            Err(e) => {
                &&& final(meta)@ == old(meta)@
                &&& e == if query.file_size > limits.max_total_size() {
                    ApiError::FileTooLarge
                } else {
                    ApiError::Internal
                }
            },
        },
        query.file_size > limits.max_total_size() ==> id is Err,
        query.file_size <= limits.max_total_size() && (forall|k: Seq<char>|
            old(meta)@.contains_key(k) ==> !is_access_id(k)) ==> id is Ok,
{
    let mut attempts: u32 = 0;
    while attempts < ID_ATTEMPTS
        invariant
            meta@ == old(meta)@,
            attempts <= ID_ATTEMPTS,
            attempts > 0 ==> query.file_size <= limits.max_total_size() && exists|k: Seq<char>|
                old(meta)@.contains_key(k) && is_access_id(k),
        decreases ID_ATTEMPTS - attempts,
    {
        let id = generate();
        match issue_id(meta, limits, id.as_str(), query.file_name.as_str(), query.file_size, now) {
            Issue::Issued => {
                return Ok(id);
            },
            Issue::TooLarge => {
                return Err(ApiError::FileTooLarge);
            },
            Issue::Taken => {
                assert(old(meta)@.contains_key(id@) && is_access_id(id@));
            },
        }
        attempts += 1;
    }
    Err(ApiError::Internal)
}

/// What is told of a transfer's record.
pub open spec fn status_of(record: MetaView, data: StatusData) -> bool {
    &&& data.file_name@ == record.file_name
    &&& data.file_size == record.file_size
    &&& data.is_using == record.is_using
    &&& data.done == record.done
}

/// The state of the transfer `id`, or `NotFound` where none is kept under it.
pub fn get_status(meta: &MemDB<MetaInfo>, id: &str) -> (status: Result<StatusData, ApiError>)
    ensures
        match status {
            Ok(data) => meta@.contains_key(id@) && status_of(meta@[id@].value@, data),
            Err(e) => !meta@.contains_key(id@) && e == ApiError::NotFound,
        },
{
    match meta.get(id) {
        Some(entry) => Ok(
            StatusData {
                file_name: entry.value.file_name.clone(),
                file_size: entry.value.file_size,
                is_using: entry.value.is_using,
                done: entry.value.done,
            },
        ),
        None => Err(ApiError::NotFound),
    }
}

/// What comes of a change to the registry that was asked of the store: done
/// where the store took it, an internal error where it did not.
pub fn update_outcome(taken: Result<(), String>) -> (outcome: Result<(), ApiError>)
    ensures
        outcome == match taken {
            Ok(_) => Ok::<(), ApiError>(()),
            Err(_) => Err::<(), ApiError>(ApiError::Internal),
        },
{
    match taken {
        Ok(_) => Ok(()),
        Err(_) => Err(ApiError::Internal),
    }
}

/// Marks the transfer `id` as done. Its expiry stays as it was.
pub fn mark_done(meta: &mut MemDB<MetaInfo>, id: &str) -> (done: Result<(), ApiError>)
    ensures
        match done {
            Ok(_) => {
                &&& old(meta)@.contains_key(id@)
                &&& meta_put(
                    old(meta)@,
                    final(meta)@,
                    id@,
                    old(meta)@[id@].value@.completed(),
                    old(meta)@[id@].exp,
                )
            },
            Err(e) => {
                &&& !old(meta)@.contains_key(id@)
                &&& e == ApiError::AccessIdNotFound
                &&& final(meta)@ == old(meta)@
            },
        },
{
    let (record, exp) = match meta.get(id) {
        Some(entry) => (entry.value.completed(), entry.exp),
        None => {
            return Err(ApiError::AccessIdNotFound);
        },
    };
    update_outcome(meta.update(id, record, exp))
}

/// Which part of an upload's body is due.
#[derive(Clone, Copy, Debug, PartialEq, Eq, Structural)]
pub enum PartKind {
    /// The first part, named `info`: the block's description.
    Info,
    /// The second part, named `file`: the block's bytes.
    File,
}

impl PartKind {
    /// The name that the part must have.
    pub open spec fn part_name(self) -> Seq<char> {
        match self {
            PartKind::Info => "info"@,
            PartKind::File => "file"@,
        }
    }

    /// The error for a body that ends before the part.
    pub open spec fn when_missing(self) -> ApiError {
        match self {
            PartKind::Info => ApiError::MissingInfoPart,
            PartKind::File => ApiError::MissingFilePart,
        }
    }

    /// The error for a part of another name.
    pub open spec fn when_misnamed(self) -> ApiError {
        match self {
            PartKind::Info => ApiError::FirstNotInfo,
            PartKind::File => ApiError::SecondNotFile,
        }
    }
}

/// What came of reading the next part of an upload's body.
pub enum PartEvent {
    /// The body has no further part.
    End,
    /// The body could not be read up to the next part.
    Broken,
    /// A part: its name, if it has one, and its content, or `None` where the
    /// content could not be read to its end.
    Part { name: Option<String>, content: Option<Vec<u8>> },
}

/// The content of the part that is due, or the error that the event stands
/// for: the body ended, could not be read, or the part has no name, another
/// name, or a content cut short, in this order.
pub open spec fn accepted_part(kind: PartKind, event: PartEvent) -> Result<Vec<u8>, ApiError> {
    match event {
        PartEvent::End => Err(kind.when_missing()),
        PartEvent::Broken => Err(ApiError::Internal),
        PartEvent::Part { name, content } => match name {
            None => Err(ApiError::FieldNameMissing),
            Some(name) => if name@ != kind.part_name() {
                Err(kind.when_misnamed())
            } else {
                match content {
                    None => Err(ApiError::ReadFailed),
                    Some(bytes) => Ok(bytes),
                }
            },
        },
    }
}

/// Checks the part that was read against the part that is due.
pub fn accept_part(kind: PartKind, event: PartEvent) -> (content: Result<Vec<u8>, ApiError>)
    ensures
        content == accepted_part(kind, event),
{
    match event {
        PartEvent::End => Err(
            match kind {
                PartKind::Info => ApiError::MissingInfoPart,
                PartKind::File => ApiError::MissingFilePart,
            },
        ),
        PartEvent::Broken => Err(ApiError::Internal),
        PartEvent::Part { name, content } => match name {
            None => Err(ApiError::FieldNameMissing),
            Some(name) => {
                let named = match kind {
                    PartKind::Info => same_text(name.as_str(), "info"),
                    PartKind::File => same_text(name.as_str(), "file"),
                };
                if !named {
                    Err(
                        match kind {
                            PartKind::Info => ApiError::FirstNotInfo,
                            PartKind::File => ApiError::SecondNotFile,
                        },
                    )
                } else {
                    match content {
                        None => Err(ApiError::ReadFailed),
                        Some(bytes) => Ok(bytes),
                    }
                }
            },
        },
    }
}

/// Why a block is not taken, if it is not. The checks, in their order: the
/// transfer exists; the range lies in the file (`end >= start`, `total > 0`,
/// `start < total`); the file is within the largest total; the payload is
/// within the largest block; the payload has the length of the range; fewer
/// blocks of the transfer wait than may wait at once.
pub open spec fn upload_verdict(
    meta: MetaMap,
    blocks: BlockMap,
    limits: Limits,
    id: Seq<char>,
    start: u64,
    end: u64,
    total: u64,
    length: nat,
) -> Option<ApiError> {
    if !meta.contains_key(id) {
        Some(ApiError::MissingAccessId)
    } else if end < start || total == 0 || start >= total {
        Some(ApiError::InvalidRange)
    } else if total > limits.max_total_size() {
        Some(ApiError::FileTooLarge)
    } else if length > limits.max_block_size {
        Some(ApiError::BlockTooLarge)
    } else if length != end - start + 1 {
        Some(ApiError::SizeMismatch)
    } else if keys_with_prefix(blocks, block_prefix_text(id)).len() >= limits.max_blocks_per_file {
        Some(ApiError::TooManyBlocks)
    } else {
        None
    }
}

/// The answer that a verdict stands for: the error, or success where there
/// is none.
pub open spec fn verdict_reply(verdict: Option<ApiError>) -> Result<(), ApiError> {
    match verdict {
        Some(e) => Err(e),
        None => Ok(()),
    }
}

/// Takes a block of the transfer `id` into the registry of waiting blocks,
/// to wait 60 seconds from `now`, unless one of the checks of
/// `upload_verdict` refuses it. A block that waits under the same offset is
/// replaced.
pub fn upload_block(
    meta: &MemDB<MetaInfo>,
    blocks: &mut MemDB<FileBlock>,
    limits: &Limits,
    id: &str,
    info: FileInfo,
    data: Vec<u8>,
    now: u64,
) -> (taken: Result<(), ApiError>)
    ensures
        taken == verdict_reply(
            upload_verdict(
                meta@,
                old(blocks)@,
                *limits,
                id@,
                info.start,
                info.end,
                info.total,
                data@.len(),
            ),
        ),
        taken is Err ==> final(blocks)@ == old(blocks)@,
        taken is Ok ==> {
            &&& block_put(
                old(blocks)@,
                final(blocks)@,
                block_key_text(id@, info.start),
                FileBlockView {
                    data: data@,
                    filename: info.filename@,
                    start: info.start,
                    end: info.end,
                    total: info.total,
                },
                expiry(now, BLOCK_TTL_SECS),
            )
            &&& final(blocks)@[block_key_text(id@, info.start)].value@.well_formed()
            &&& data@.len() == info.end - info.start + 1
            &&& data@.len() <= limits.max_block_size
        },
        colon_free(id@) && within_bound(old(blocks)@, *limits) ==> within_bound(
            final(blocks)@,
            *limits,
        ),
{
    if !meta.contains_key(id) {
        return Err(ApiError::MissingAccessId);
    }
    if info.end < info.start || info.total == 0 || info.start >= info.total {
        return Err(ApiError::InvalidRange);
    }
    if !limits.admits_total(info.total) {
        return Err(ApiError::FileTooLarge);
    }
    let length = data.len() as u64;
    if length > limits.max_block_size {
        return Err(ApiError::BlockTooLarge);
    }
    if length == 0 || length - 1 != info.end - info.start {
        return Err(ApiError::SizeMismatch);
    }
    let prefix = block_prefix(id);
    let waiting = blocks.count_prefix(prefix.as_str(), limits.max_blocks_per_file);
    if waiting >= limits.max_blocks_per_file {
        return Err(ApiError::TooManyBlocks);
    }
    let key = block_key(id, info.start);
    let block = FileBlock::new(data, info.filename, info.start, info.end, info.total);
    let _ = blocks.insert(key.as_str(), block, BLOCK_TTL_SECS, now);
    proof {
        if colon_free(id@) && within_bound(old(blocks)@, *limits) {
            lemma_upload_keeps_bound(old(blocks)@, *limits, id@, info.start, blocks@[key@]);
        }
    }
    Ok(())
}

/// How far the reading of an upload has come.
pub enum UploadState {
    /// The first part is due.
    AwaitInfo,
    /// The first part was read; its content is being turned into a block's
    /// description.
    AwaitParsed,
    /// The second part is due, for the block described.
    AwaitFile(FileInfo),
    /// The request was answered.
    Closed,
}

/// What came of the step that was asked for.
pub enum UploadEvent {
    /// The next part of the body was read.
    Part(PartEvent),
    /// The first part's content was read as a block's description, or as
    /// none where it holds none.
    Parsed(Option<FileInfo>),
}

/// What is to be done next for an upload.
pub enum UploadAction {
    /// Read the next part of the body.
    ReadPart,
    /// Read these bytes as a block's description.
    Parse(Vec<u8>),
    /// Answer the request.
    Reply(Result<(), ApiError>),
}

/// The first step of an upload to the transfer `id`: to read the first part,
/// or to answer at once where no transfer is kept under `id`.
pub fn begin_upload(meta: &MemDB<MetaInfo>, id: &str) -> (next: (UploadState, UploadAction))
    ensures
        meta@.contains_key(id@) ==> next.0 is AwaitInfo && next.1 is ReadPart,
        !meta@.contains_key(id@) ==> next.0 is Closed && next.1 == UploadAction::Reply(
            Err(ApiError::MissingAccessId),
        ),
{
    if meta.contains_key(id) {
        (UploadState::AwaitInfo, UploadAction::ReadPart)
    } else {
        (UploadState::Closed, UploadAction::Reply(Err(ApiError::MissingAccessId)))
    }
}

/// The description and the bytes of the block that `event` completes in
/// `state`: there is one where the second part was due and arrives whole.
pub open spec fn upload_arrival(state: UploadState, event: UploadEvent) -> Option<
    (FileInfo, Vec<u8>),
> {
    match (state, event) {
        (UploadState::AwaitFile(info), UploadEvent::Part(part)) => match accepted_part(
            PartKind::File,
            part,
        ) {
            Ok(data) => Some((info, data)),
            Err(_) => None,
        },
        _ => None,
    }
}

/// What follows from `event` in `state`, where `verdict` is what the checks
/// say of the block that the event completes, if it completes one.
///
/// The first part must be the description; once it is read as one, the second
/// part is due; with the second part the request is answered by the verdict.
/// A part that is not the one due, or a description that is none, closes the
/// request with its error; an event that the state did not ask for closes it
/// with an internal error.
pub open spec fn upload_step(state: UploadState, event: UploadEvent, verdict: Option<ApiError>) -> (
    UploadState,
    UploadAction,
) {
    match (state, event) {
        (UploadState::AwaitInfo, UploadEvent::Part(part)) => match accepted_part(
            PartKind::Info,
            part,
        ) {
            Ok(bytes) => (UploadState::AwaitParsed, UploadAction::Parse(bytes)),
            Err(e) => (UploadState::Closed, UploadAction::Reply(Err(e))),
        },
        (UploadState::AwaitParsed, UploadEvent::Parsed(Some(info))) => (
            UploadState::AwaitFile(info),
            UploadAction::ReadPart,
        ),
        (UploadState::AwaitParsed, UploadEvent::Parsed(None)) => (
            UploadState::Closed,
            UploadAction::Reply(Err(ApiError::BadInfoJson)),
        ),
        (UploadState::AwaitFile(_), UploadEvent::Part(part)) => match accepted_part(
            PartKind::File,
            part,
        ) {
            Ok(_) => (UploadState::Closed, UploadAction::Reply(verdict_reply(verdict))),
            Err(e) => (UploadState::Closed, UploadAction::Reply(Err(e))),
        },
        _ => (UploadState::Closed, UploadAction::Reply(Err(ApiError::Internal))),
    }
}

/// One step of an upload to the transfer `id`: from how far the reading has
/// come and what the last step gave, to what is to be done next.
///
/// The step is that of `upload_step`. Nothing is changed until the second
/// part arrives whole; then the block is taken as `upload_block` says, and
/// the request is answered with what came of that.
pub fn upload_file(
    state: UploadState,
    event: UploadEvent,
    meta: &MemDB<MetaInfo>,
    blocks: &mut MemDB<FileBlock>,
    limits: &Limits,
    id: &str,
    now: u64,
) -> (next: (UploadState, UploadAction))
    ensures
        match upload_arrival(state, event) {
            None => next == upload_step(state, event, None) && final(blocks)@ == old(blocks)@,
            Some((info, data)) => {
                let verdict = upload_verdict(
                    meta@,
                    old(blocks)@,
                    *limits,
                    id@,
                    info.start,
                    info.end,
                    info.total,
                    data@.len(),
                );
                &&& next == upload_step(state, event, verdict)
                &&& verdict is Some ==> final(blocks)@ == old(blocks)@
                &&& verdict is None ==> block_put(
                    old(blocks)@,
                    final(blocks)@,
                    block_key_text(id@, info.start),
                    FileBlockView {
                        data: data@,
                        filename: info.filename@,
                        start: info.start,
                        end: info.end,
                        total: info.total,
                    },
                    expiry(now, BLOCK_TTL_SECS),
                )
            },
        },
{
    match (state, event) {
        (UploadState::AwaitInfo, UploadEvent::Part(part)) => match accept_part(
            PartKind::Info,
            part,
        ) {
            Ok(bytes) => (UploadState::AwaitParsed, UploadAction::Parse(bytes)),
            Err(e) => (UploadState::Closed, UploadAction::Reply(Err(e))),
        },
        (UploadState::AwaitParsed, UploadEvent::Parsed(Some(info))) => (
            UploadState::AwaitFile(info),
            UploadAction::ReadPart,
        ),
        (UploadState::AwaitParsed, UploadEvent::Parsed(None)) => (
            UploadState::Closed,
            UploadAction::Reply(Err(ApiError::BadInfoJson)),
        ),
        (UploadState::AwaitFile(info), UploadEvent::Part(part)) => match accept_part(
            PartKind::File,
            part,
        ) {
            Ok(data) => {
                let taken = upload_block(meta, blocks, limits, id, info, data, now);
                (UploadState::Closed, UploadAction::Reply(taken))
            },
            Err(e) => (UploadState::Closed, UploadAction::Reply(Err(e))),
        },
        _ => (UploadState::Closed, UploadAction::Reply(Err(ApiError::Internal))),
    }
}

/// How often a claim is written before the request fails.
pub const CLAIM_ATTEMPTS: u32 = 5;

/// How long to wait before a claim is written again, in milliseconds.
pub const CLAIM_BACKOFF_MS: u64 = 100;

/// How long to wait after a claim, so that a claim made at the same moment
/// has settled before the holder is looked at again, in milliseconds.
pub const CLAIM_SETTLE_MS: u64 = 250;

/// How often a block that is not there yet is looked for again.
pub const FETCH_RETRIES: u32 = 60;

/// How long to wait before a block is looked for again, in milliseconds.
pub const FETCH_DELAY_MS: u64 = 250;

/// A download as asked for: the receiver's identity and the block's offset.
pub struct DownloadRequest {
    pub rid: String,
    pub start: u64,
}

/// What the two parameters of a download stand for: `rid` must be there,
/// `start` must be there and hold an unsigned 64-bit number.
pub open spec fn download_params(rid: Option<Seq<char>>, start: Option<Seq<char>>) -> Result<
    (Seq<char>, u64),
    ApiError,
> {
    match rid {
        None => Err(ApiError::MissingRid),
        Some(rid) => match start {
            None => Err(ApiError::MissingStart),
            Some(text) => match parsed_u64(text) {
                None => Err(ApiError::InvalidStart),
                Some(start) => Ok((rid, start)),
            },
        },
    }
}

/// Reads the two parameters of a download.
pub fn parse_download(rid: Option<&str>, start: Option<&str>) -> (request: Result<
    DownloadRequest,
    ApiError,
>)
    ensures
        match download_params(
            match rid {
                Some(text) => Some(text@),
                None => None,
            },
            match start {
                Some(text) => Some(text@),
                None => None,
            },
        ) {
            Ok((name, offset)) => request matches Ok(r) && r.rid@ == name && r.start == offset,
            Err(e) => request matches Err(f) && f == e,
        },
{
    let rid = match rid {
        Some(rid) => rid,
        None => {
            return Err(ApiError::MissingRid);
        },
    };
    let start = match start {
        Some(start) => start,
        None => {
            return Err(ApiError::MissingStart);
        },
    };
    match parse_u64(start) {
        Some(start) => Ok(DownloadRequest { rid: rid.to_owned(), start }),
        None => Err(ApiError::InvalidStart),
    }
}

/// What a receiver's claim on a transfer comes to.
#[derive(Clone, Copy, Debug, PartialEq, Eq, Structural)]
pub enum Claim {
    /// Another receiver holds the transfer.
    Refused,
    /// The receiver holds the transfer already.
    Held,
    /// The transfer becomes the receiver's.
    Taken,
}

/// What the claim of `rid` on a transfer with this record comes to: refused
/// where another receiver is named as holder, held where `rid` itself is,
/// taken otherwise.
pub open spec fn claim_of(record: MetaView, rid: Seq<char>) -> Claim {
    if record.is_using && record.used_by.len() > 0 && record.used_by != rid {
        Claim::Refused
    } else if !record.is_using || record.used_by.len() == 0 || record.used_by != rid {
        Claim::Taken
    } else {
        Claim::Held
    }
}

/// The record after the claim of `rid`, or `None` where the claim is refused.
pub open spec fn after_claim(record: MetaView, rid: Seq<char>) -> Option<MetaView> {
    match claim_of(record, rid) {
        Claim::Refused => None,
        Claim::Held => Some(record),
        Claim::Taken => Some(record.claimed_by(rid)),
    }
}

/// Decides the claim of `rid` on a transfer with this record.
pub fn claim(record: &MetaInfo, rid: &str) -> (decision: Claim)
    ensures
        decision == claim_of(record@, rid@),
{
    let named = record.used_by.as_str().unicode_len() > 0;
    let same = same_text(record.used_by.as_str(), rid);
    if record.is_using && named && !same {
        Claim::Refused
    } else if !record.is_using || !named || !same {
        Claim::Taken
    } else {
        Claim::Held
    }
}

/// How far a download has come.
#[derive(Clone, Copy, Debug, PartialEq, Eq, Structural)]
pub enum DownloadState {
    /// The transfer is to be claimed; `attempts` claims were written in vain.
    Claim { attempts: u32 },
    /// The holder is to be checked, and the block looked for.
    Verify,
    /// The block is to be looked for again, after `retries` times in vain.
    Fetch { retries: u32 },
    /// The request was answered.
    Closed,
}

/// What is to be done next for a download.
pub enum DownloadAction {
    /// Wait, then take the next step.
    Sleep { millis: u64 },
    /// Answer the request with an error.
    Reply(ApiError),
    /// Answer the request with this block, then let the block be consumed.
    Deliver(FileBlock),
}

/// A `DownloadAction` as a mathematical value.
pub ghost enum DownloadActionView {
    Sleep { millis: u64 },
    Reply(ApiError),
    Deliver(FileBlockView),
}

impl View for DownloadAction {
    type V = DownloadActionView;

    open spec fn view(&self) -> DownloadActionView {
        match *self {
            DownloadAction::Sleep { millis } => DownloadActionView::Sleep { millis },
            DownloadAction::Reply(e) => DownloadActionView::Reply(e),
            DownloadAction::Deliver(block) => DownloadActionView::Deliver(block@),
        }
    }
}

/// The state in which a download begins: with the claim for the block at
/// offset zero, with the check of the holder for any other.
pub fn begin_download(request: &DownloadRequest) -> (state: DownloadState)
    ensures
        state == if request.start == 0 {
            (DownloadState::Claim { attempts: 0 })
        } else {
            DownloadState::Verify
        },
{
    if request.start == 0 {
        DownloadState::Claim { attempts: 0 }
    } else {
        DownloadState::Verify
    }
}

/// What follows a claim that was written to the registry: where the store
/// took it, the wait for claims to settle and then the check of the holder;
/// where it did not, a short wait and the claim once more, and after the
/// fifth time in vain an internal error.
pub open spec fn claim_next(taken: Result<(), String>, attempts: u32) -> (
    DownloadState,
    DownloadActionView,
) {
    match taken {
        Ok(_) => (DownloadState::Verify, DownloadActionView::Sleep { millis: CLAIM_SETTLE_MS }),
        Err(_) => if attempts + 1 < CLAIM_ATTEMPTS {
            (
                DownloadState::Claim { attempts: (attempts + 1) as u32 },
                DownloadActionView::Sleep { millis: CLAIM_BACKOFF_MS },
            )
        } else {
            (DownloadState::Closed, DownloadActionView::Reply(ApiError::Internal))
        },
    }
}

/// Computes `claim_next`.
pub fn after_claim_update(taken: Result<(), String>, attempts: u32) -> (next: (
    DownloadState,
    DownloadAction,
))
    ensures
        (next.0, next.1@) == claim_next(taken, attempts),
{
    match taken {
        Ok(_) => (DownloadState::Verify, DownloadAction::Sleep { millis: CLAIM_SETTLE_MS }),
        Err(_) => if attempts < CLAIM_ATTEMPTS - 1 {
            (
                DownloadState::Claim { attempts: attempts + 1 },
                DownloadAction::Sleep { millis: CLAIM_BACKOFF_MS },
            )
        } else {
            (DownloadState::Closed, DownloadAction::Reply(ApiError::Internal))
        },
    }
}

/// A download that ends with the error `e`.
pub open spec fn closed_with(e: ApiError) -> (DownloadState, DownloadActionView) {
    (DownloadState::Closed, DownloadActionView::Reply(e))
}

/// Looking for the block of transfer `id` at offset `start`, after `retries`
/// times in vain: the block is delivered where it waits, unless it lies
/// behind the offset asked for; where it does not wait, the next look comes
/// after a wait, and after sixty waits the block counts as not ready.
pub open spec fn fetch_step(blocks: BlockMap, id: Seq<char>, start: u64, retries: u32) -> (
    DownloadState,
    DownloadActionView,
) {
    let key = block_key_text(id, start);
    if blocks.contains_key(key) {
        if blocks[key].value@.start > start {
            closed_with(ApiError::WrongStart)
        } else {
            (DownloadState::Closed, DownloadActionView::Deliver(blocks[key].value@))
        }
    } else if retries < FETCH_RETRIES {
        (
            DownloadState::Fetch { retries: (retries + 1) as u32 },
            DownloadActionView::Sleep { millis: FETCH_DELAY_MS },
        )
    } else {
        closed_with(ApiError::BlockNotReady)
    }
}

/// One step of the download of the block at offset `start` of transfer `id`
/// by the receiver `rid`.
///
/// Claim: an unknown transfer and a transfer that another receiver holds end
/// the request; otherwise the transfer is the receiver's, and the holder is
/// checked after a wait. Verify: an unknown transfer and a transfer held by
/// anyone else end the request; otherwise the block is looked for as
/// `fetch_step` says. A request that was answered has no further step.
pub open spec fn download_step(
    state: DownloadState,
    meta: MetaMap,
    blocks: BlockMap,
    id: Seq<char>,
    rid: Seq<char>,
    start: u64,
) -> (DownloadState, DownloadActionView) {
    match state {
        DownloadState::Claim { attempts } => if !meta.contains_key(id) {
            closed_with(ApiError::AccessIdNotFound)
        } else if claim_of(meta[id].value@, rid) is Refused {
            closed_with(ApiError::FileInUse)
        } else {
            (DownloadState::Verify, DownloadActionView::Sleep { millis: CLAIM_SETTLE_MS })
        },
        DownloadState::Verify => if !meta.contains_key(id) {
            closed_with(ApiError::AccessIdNotFound)
        } else if meta[id].value@.used_by != rid {
            closed_with(ApiError::WrongReceiveId)
        } else {
            fetch_step(blocks, id, start, 0)
        },
        DownloadState::Fetch { retries } => fetch_step(blocks, id, start, retries),
        DownloadState::Closed => closed_with(ApiError::Internal),
    }
}

/// Whether the step in `state` makes the transfer `id` the receiver's.
pub open spec fn download_claims(
    state: DownloadState,
    meta: MetaMap,
    id: Seq<char>,
    rid: Seq<char>,
) -> bool {
    state is Claim && meta.contains_key(id) && claim_of(meta[id].value@, rid) is Taken
}

fn fetch_block(blocks: &MemDB<FileBlock>, id: &str, start: u64, retries: u32) -> (next: (
    DownloadState,
    DownloadAction,
))
    ensures
        (next.0, next.1@) == fetch_step(blocks@, id@, start, retries),
{
    let key = block_key(id, start);
    match blocks.get(key.as_str()) {
        Some(entry) => if entry.value.start > start {
            (DownloadState::Closed, DownloadAction::Reply(ApiError::WrongStart))
        } else {
            (DownloadState::Closed, DownloadAction::Deliver(entry.value.clone()))
        },
        None => if retries < FETCH_RETRIES {
            (
                DownloadState::Fetch { retries: retries + 1 },
                DownloadAction::Sleep { millis: FETCH_DELAY_MS },
            )
        } else {
            (DownloadState::Closed, DownloadAction::Reply(ApiError::BlockNotReady))
        },
    }
}

/// One step of a download: from how far it has come to what is to be done
/// next, as `download_step` says. The registry of transfers changes in one
/// case only: where the claim makes the transfer the receiver's, the record
/// names the receiver as holder and keeps its expiry.
pub fn get_file(
    state: DownloadState,
    meta: &mut MemDB<MetaInfo>,
    blocks: &MemDB<FileBlock>,
    id: &str,
    request: &DownloadRequest,
) -> (next: (DownloadState, DownloadAction))
    ensures
        (next.0, next.1@) == download_step(
            state,
            old(meta)@,
            blocks@,
            id@,
            request.rid@,
            request.start,
        ),
        download_claims(state, old(meta)@, id@, request.rid@) ==> meta_put(
            old(meta)@,
            final(meta)@,
            id@,
            old(meta)@[id@].value@.claimed_by(request.rid@),
            old(meta)@[id@].exp,
        ),
        !download_claims(state, old(meta)@, id@, request.rid@) ==> final(meta)@ == old(meta)@,
{
    match state {
        DownloadState::Claim { attempts } => {
            let (claimed, exp) = match meta.get(id) {
                None => {
                    return (
                        DownloadState::Closed,
                        DownloadAction::Reply(ApiError::AccessIdNotFound),
                    );
                },
                Some(entry) => match claim(&entry.value, request.rid.as_str()) {
                    Claim::Refused => {
                        return (DownloadState::Closed, DownloadAction::Reply(ApiError::FileInUse));
                    },
                    Claim::Held => {
                        return (
                            DownloadState::Verify,
                            DownloadAction::Sleep { millis: CLAIM_SETTLE_MS },
                        );
                    },
                    Claim::Taken => (entry.value.claimed_by(request.rid.as_str()), entry.exp),
                },
            };
            after_claim_update(meta.update(id, claimed, exp), attempts)
        },
        DownloadState::Verify => {
            match meta.get(id) {
                None => (DownloadState::Closed, DownloadAction::Reply(ApiError::AccessIdNotFound)),
                Some(entry) => if !same_text(
                    entry.value.used_by.as_str(),
                    request.rid.as_str(),
                ) {
                    (DownloadState::Closed, DownloadAction::Reply(ApiError::WrongReceiveId))
                } else {
                    fetch_block(blocks, id, request.start, 0)
                },
            }
        },
        DownloadState::Fetch { retries } => fetch_block(blocks, id, request.start, retries),
        DownloadState::Closed => (DownloadState::Closed, DownloadAction::Reply(ApiError::Internal)),
    }
}

/// Takes the block of transfer `id` at offset `start` out of the registry,
/// once it was delivered. Whether it was still there is returned; that it
/// was gone already is no error.
pub fn consume_block(blocks: &mut MemDB<FileBlock>, id: &str, start: u64) -> (found: bool)
    ensures
        final(blocks)@ == old(blocks)@.remove(block_key_text(id@, start)),
        found == old(blocks)@.contains_key(block_key_text(id@, start)),
        forall|limits: Limits| #[trigger]
            within_bound(old(blocks)@, limits) ==> within_bound(final(blocks)@, limits),
{
    let key = block_key(id, start);
    let found = blocks.remove(key.as_str()).is_some();
    proof {
        assert forall|limits: Limits| #[trigger] within_bound(old(blocks)@, limits) implies within_bound(
            blocks@,
            limits,
        ) by {
            lemma_loss_keeps_bound(old(blocks)@, blocks@, limits);
        }
    }
    found
}

/// Drops the blocks that have waited too long, and returns how many were
/// dropped.
pub fn sweep_blocks(blocks: &mut MemDB<FileBlock>, now: u64) -> (dropped: usize)
    ensures
        final(blocks)@ == live_at(old(blocks)@, now),
        dropped == old(blocks)@.dom().len() - final(blocks)@.dom().len(),
        forall|limits: Limits| #[trigger]
            within_bound(old(blocks)@, limits) ==> within_bound(final(blocks)@, limits),
{
    let dropped = blocks.sweep(now);
    proof {
        assert forall|limits: Limits| #[trigger] within_bound(old(blocks)@, limits) implies within_bound(
            blocks@,
            limits,
        ) by {
            lemma_loss_keeps_bound(old(blocks)@, blocks@, limits);
        }
    }
    dropped
}

/// The value of the `Content-Range` header that goes with a block: the word
/// `bytes`, the first and the last offset with a hyphen between, a slash and
/// the file's length.
pub open spec fn content_range_text(start: u64, end: u64, total: u64) -> Seq<char> {
    "bytes "@ + decimal(start as nat) + seq!['-'] + decimal(end as nat) + seq!['/'] + decimal(
        total as nat,
    )
}

/// Computes `content_range_text` for a block.
pub fn content_range(block: &FileBlock) -> (header: String)
    ensures
        header@ == content_range_text(block.start, block.end, block.total),
{
    let mut header = "bytes ".to_owned();
    push_padded(&mut header, block.start, 0);
    header.push('-');
    push_padded(&mut header, block.end, 0);
    header.push('/');
    push_padded(&mut header, block.total, 0);
    header
}

/// Whether of no transfer whose ID holds no colon more blocks wait than may
/// wait at once.
pub open spec fn within_bound(blocks: BlockMap, limits: Limits) -> bool {
    forall|id: Seq<char>|
        colon_free(id) ==> #[trigger] keys_with_prefix(blocks, block_prefix_text(id)).len()
            <= limits.max_blocks_per_file
}

/// A block that is taken leaves the bound on waiting blocks in place: where
/// fewer blocks of the transfer wait than may wait at once, as the checks
/// demand, one more is within the bound, and no other transfer counts it as
/// its own.
pub proof fn lemma_upload_keeps_bound(
    before: BlockMap,
    limits: Limits,
    id: Seq<char>,
    start: u64,
    entry: CacheEntry<FileBlock>,
)
    requires
        before.dom().finite(),
        within_bound(before, limits),
        colon_free(id),
        keys_with_prefix(before, block_prefix_text(id)).len() < limits.max_blocks_per_file,
    ensures
        within_bound(before.insert(block_key_text(id, start), entry), limits),
{
    let key = block_key_text(id, start);
    let after = before.insert(key, entry);
    assert forall|other: Seq<char>| colon_free(other) implies #[trigger] keys_with_prefix(
        after,
        block_prefix_text(other),
    ).len() <= limits.max_blocks_per_file by {
        lemma_put_adds_one_match(before, key, entry, block_prefix_text(other));
        if block_prefix_text(other).is_prefix_of(key) {
            lemma_block_key_owner(id, other, start);
        }
    }
}

/// A registry of blocks that has lost entries, to a sweep or to a receiver,
/// is within the bound if it was.
pub proof fn lemma_loss_keeps_bound(before: BlockMap, after: BlockMap, limits: Limits)
    requires
        before.dom().finite(),
        within_bound(before, limits),
        after.dom().subset_of(before.dom()),
    ensures
        within_bound(after, limits),
{
    assert forall|id: Seq<char>| colon_free(id) implies #[trigger] keys_with_prefix(
        after,
        block_prefix_text(id),
    ).len() <= limits.max_blocks_per_file by {
        lemma_fewer_keys_fewer_matches(after, before, block_prefix_text(id));
    }
}

/// A block that was taken is the block that a download at its offset finds:
/// the same bytes, name and range, whatever else waits.
pub proof fn lemma_upload_then_download(
    before: BlockMap,
    after: BlockMap,
    id: Seq<char>,
    block: FileBlockView,
    exp: u64,
    retries: u32,
)
    requires
        block_put(before, after, block_key_text(id, block.start), block, exp),
    ensures
        fetch_step(after, id, block.start, retries) == (
            DownloadState::Closed,
            DownloadActionView::Deliver(block),
        ),
{
}

/// A block that was consumed is not found again: the next look for it waits
/// or gives up.
pub proof fn lemma_consumed_is_gone(blocks: BlockMap, id: Seq<char>, start: u64, retries: u32)
    ensures
        !(fetch_step(blocks.remove(block_key_text(id, start)), id, start, retries).1 is Deliver),
{
}

/// A claim that is made again by the same receiver changes nothing: the
/// record stays as the first claim left it, held by that receiver.
pub proof fn lemma_claim_again(record: MetaView, rid: Seq<char>)
    requires
        after_claim(record, rid) is Some,
    ensures
        after_claim(after_claim(record, rid)->Some_0, rid) == after_claim(record, rid),
        after_claim(record, rid)->Some_0.used_by == rid,
        after_claim(record, rid)->Some_0.is_using,
        rid.len() > 0 ==> claim_of(after_claim(record, rid)->Some_0, rid) is Held,
{
}

/// While one receiver holds a transfer, the claim of another is refused.
pub proof fn lemma_second_claim_refused(record: MetaView, first: Seq<char>, second: Seq<char>)
    requires
        after_claim(record, first) is Some,
        first.len() > 0,
        second != first,
    ensures
        claim_of(after_claim(record, first)->Some_0, second) is Refused,
        after_claim(after_claim(record, first)->Some_0, second) is None,
{
}

/// A claim leaves holder and claim flag in agreement where the receiver's
/// identity is not empty, and never takes back a report of completion.
pub proof fn lemma_claim_keeps_record_sound(record: MetaView, rid: Seq<char>)
    requires
        after_claim(record, rid) is Some,
    ensures
        record.consistent() && rid.len() > 0 ==> after_claim(record, rid)->Some_0.consistent(),
        record.done ==> after_claim(record, rid)->Some_0.done,
        after_claim(record, rid)->Some_0.file_name == record.file_name,
        after_claim(record, rid)->Some_0.file_size == record.file_size,
{
}

/// A download that never finds its block gives up after the sixty waits of
/// a quarter second each, and not before: at every look up to the sixtieth in
/// vain the next step is a wait.
pub proof fn lemma_fetch_gives_up(blocks: BlockMap, id: Seq<char>, start: u64, retries: u32)
    requires
        !blocks.contains_key(block_key_text(id, start)),
    ensures
        retries < FETCH_RETRIES ==> fetch_step(blocks, id, start, retries) == (
            DownloadState::Fetch { retries: (retries + 1) as u32 },
            DownloadActionView::Sleep { millis: FETCH_DELAY_MS },
        ),
        retries >= FETCH_RETRIES ==> fetch_step(blocks, id, start, retries) == closed_with(
            ApiError::BlockNotReady,
        ),
{
}

} // verus!
