use fileflow::db::{block_key, FileBlock, MetaInfo};
use fileflow::entity::{ApiError, FileInfo, Limits, UpdateMetaSchema};
use fileflow::handler::{
    accept_part, after_claim_update, begin_download, begin_upload, consume_block, content_range,
    get_file, get_id, get_status, issue_id, mark_done, parse_download, sweep_blocks, update_outcome,
    upload_block, upload_file, DownloadAction, DownloadRequest, DownloadState, Issue, PartEvent, PartKind,
    UploadAction, UploadEvent, UploadState, BLOCK_TTL_SECS, CLAIM_ATTEMPTS, CLAIM_BACKOFF_MS,
    CLAIM_SETTLE_MS, FETCH_DELAY_MS, FETCH_RETRIES, META_TTL_SECS,
};
use fileflow::memdb::MemDB;

fn stores() -> (MemDB<MetaInfo>, MemDB<FileBlock>) {
    (MemDB::new(), MemDB::new())
}

fn open_transfer(meta: &mut MemDB<MetaInfo>, id: &str) {
    let issued = issue_id(meta, &Limits::defaults(), id, "a.bin", 10, 0);
    assert!(matches!(issued, Issue::Issued));
}

fn info(start: u64, end: u64, total: u64) -> FileInfo {
    FileInfo { filename: "a.bin".to_string(), start, end, total }
}

fn request(rid: &str, start: u64) -> DownloadRequest {
    DownloadRequest { rid: rid.to_string(), start }
}

fn part(name: &str, content: &[u8]) -> PartEvent {
    PartEvent::Part { name: Some(name.to_string()), content: Some(content.to_vec()) }
}

/// Runs a download to its answer; returns the answer and the milliseconds waited.
fn run_download(
    meta: &mut MemDB<MetaInfo>,
    blocks: &MemDB<FileBlock>,
    id: &str,
    req: &DownloadRequest,
) -> (DownloadAction, u64) {
    let mut state = begin_download(req);
    let mut waited = 0;
    loop {
        let (next, action) = get_file(state, meta, blocks, id, req);
        match action {
            DownloadAction::Sleep { millis } => {
                waited += millis;
                state = next;
            }
            other => {
                assert_eq!(next, DownloadState::Closed);
                return (other, waited);
            }
        }
    }
}

#[test]
fn constants_are_as_described() {
    assert_eq!(META_TTL_SECS, 24 * 60 * 60);
    assert_eq!(BLOCK_TTL_SECS, 60);
    assert_eq!(CLAIM_ATTEMPTS, 5);
    assert_eq!(CLAIM_BACKOFF_MS, 100);
    assert_eq!(CLAIM_SETTLE_MS, 250);
    assert_eq!(FETCH_RETRIES, 60);
    assert_eq!(FETCH_DELAY_MS, 250);
}

#[test]
fn get_id_issues_five_characters_and_opens_the_transfer() {
    let (mut meta, _) = stores();
    let query = UpdateMetaSchema { file_name: "a.bin".to_string(), file_size: 10 };
    let id = get_id(&mut meta, &Limits::defaults(), &query, 1_000).unwrap();
    assert_eq!(id.len(), 5);
    assert!(id.chars().all(|c| c.is_ascii_digit() || c.is_ascii_lowercase()));
    let entry = meta.get(&id).unwrap();
    assert_eq!(entry.exp, 1_000 + 86_400_000);
    assert_eq!(entry.value.file_name, "a.bin");
    assert_eq!(entry.value.file_size, 10);
    assert_eq!(entry.value.block_size, 1_048_576);
    assert!(!entry.value.is_using);
    assert_eq!(entry.value.used_by, "");
    assert!(!entry.value.done);
    assert_eq!(meta.len(), 1);
}

#[test]
fn file_size_at_the_largest_total_is_accepted_one_more_is_not() {
    let (mut meta, _) = stores();
    let limits = Limits::defaults();
    let most = 1_048_576u64 * 1024;
    let query = UpdateMetaSchema { file_name: "big".to_string(), file_size: most };
    assert!(get_id(&mut meta, &limits, &query, 0).is_ok());
    let query = UpdateMetaSchema { file_name: "big".to_string(), file_size: most + 1 };
    let refused = get_id(&mut meta, &limits, &query, 0);
    assert_eq!(refused, Err(ApiError::FileTooLarge));
    assert_eq!(ApiError::FileTooLarge.status(), 400);
    assert_eq!(meta.len(), 1);
}

#[test]
fn issue_id_passes_over_an_id_in_use() {
    let (mut meta, _) = stores();
    let limits = Limits::defaults();
    assert!(matches!(issue_id(&mut meta, &limits, "abcde", "one", 1, 0), Issue::Issued));
    assert!(matches!(issue_id(&mut meta, &limits, "abcde", "two", 2, 0), Issue::Taken));
    assert_eq!(meta.get("abcde").unwrap().value.file_name, "one");
    assert!(matches!(issue_id(&mut meta, &limits, "abcde", "x", u64::MAX, 0), Issue::TooLarge));
    assert!(matches!(issue_id(&mut meta, &limits, "fresh", "x", u64::MAX, 0), Issue::TooLarge));
    assert!(!meta.contains_key("fresh"));
}

#[test]
fn get_status_reports_the_record_or_not_found() {
    let (mut meta, _) = stores();
    assert!(matches!(get_status(&meta, "x"), Err(ApiError::NotFound)));
    open_transfer(&mut meta, "x");
    let status = get_status(&meta, "x").ok().unwrap();
    assert_eq!(status.file_name, "a.bin");
    assert_eq!(status.file_size, 10);
    assert!(!status.is_using);
    assert!(!status.done);
    mark_done(&mut meta, "x").unwrap();
    let status = get_status(&meta, "x").ok().unwrap();
    assert!(status.done);
    // once the sweeper has taken the record, the ID is unknown
    meta.sweep(86_400_000);
    assert!(matches!(get_status(&meta, "x"), Err(ApiError::NotFound)));
}

#[test]
fn mark_done_is_idempotent_and_keeps_the_expiry() {
    let (mut meta, _) = stores();
    assert_eq!(mark_done(&mut meta, "x"), Err(ApiError::AccessIdNotFound));
    open_transfer(&mut meta, "x");
    let exp = meta.get("x").unwrap().exp;
    assert_eq!(mark_done(&mut meta, "x"), Ok(()));
    assert_eq!(mark_done(&mut meta, "x"), Ok(()));
    let entry = meta.get("x").unwrap();
    assert!(entry.value.done);
    assert_eq!(entry.exp, exp);
    assert_eq!(entry.value.file_name, "a.bin");
    assert_eq!(entry.value.file_size, 10);
}

#[test]
fn update_outcome_turns_a_store_failure_into_an_internal_error() {
    assert_eq!(update_outcome(Ok(())), Ok(()));
    assert_eq!(update_outcome(Err("lock".to_string())), Err(ApiError::Internal));
    assert_eq!(ApiError::Internal.status(), 500);
}

#[test]
fn accept_part_checks_name_and_content_in_order() {
    assert_eq!(accept_part(PartKind::Info, PartEvent::End), Err(ApiError::MissingInfoPart));
    assert_eq!(accept_part(PartKind::File, PartEvent::End), Err(ApiError::MissingFilePart));
    assert_eq!(accept_part(PartKind::Info, PartEvent::Broken), Err(ApiError::Internal));
    assert_eq!(accept_part(PartKind::File, PartEvent::Broken), Err(ApiError::Internal));
    let nameless = PartEvent::Part { name: None, content: None };
    assert_eq!(accept_part(PartKind::Info, nameless), Err(ApiError::FieldNameMissing));
    assert_eq!(accept_part(PartKind::Info, part("file", b"x")), Err(ApiError::FirstNotInfo));
    assert_eq!(accept_part(PartKind::File, part("info", b"x")), Err(ApiError::SecondNotFile));
    assert_eq!(accept_part(PartKind::Info, part("Info", b"x")), Err(ApiError::FirstNotInfo));
    let misnamed_and_cut = PartEvent::Part { name: Some("other".to_string()), content: None };
    assert_eq!(accept_part(PartKind::File, misnamed_and_cut), Err(ApiError::SecondNotFile));
    let cut = PartEvent::Part { name: Some("file".to_string()), content: None };
    assert_eq!(accept_part(PartKind::File, cut), Err(ApiError::ReadFailed));
    assert_eq!(accept_part(PartKind::Info, part("info", b"{}")), Ok(b"{}".to_vec()));
    assert_eq!(accept_part(PartKind::File, part("file", b"")), Ok(vec![]));
}

#[test]
fn upload_to_an_unknown_id_is_refused() {
    let (meta, mut blocks) = stores();
    let limits = Limits::defaults();
    let taken = upload_block(&meta, &mut blocks, &limits, "x", info(0, 9, 10), vec![0; 10], 0);
    assert_eq!(taken, Err(ApiError::MissingAccessId));
    assert_eq!(ApiError::MissingAccessId.status(), 404);
    assert_eq!(blocks.len(), 0);
}

#[test]
fn upload_with_end_before_start_is_an_invalid_range() {
    let (mut meta, mut blocks) = stores();
    open_transfer(&mut meta, "x");
    let limits = Limits::defaults();
    let taken = upload_block(&meta, &mut blocks, &limits, "x", info(5, 4, 10), vec![], 0);
    assert_eq!(taken, Err(ApiError::InvalidRange));
    assert_eq!(ApiError::InvalidRange.status(), 400);
    assert_eq!(ApiError::InvalidRange.message(), "Invalid file range");
    // total of zero, and a start at or behind the end of the file
    let taken = upload_block(&meta, &mut blocks, &limits, "x", info(0, 0, 0), vec![0], 0);
    assert_eq!(taken, Err(ApiError::InvalidRange));
    let taken = upload_block(&meta, &mut blocks, &limits, "x", info(10, 10, 10), vec![0], 0);
    assert_eq!(taken, Err(ApiError::InvalidRange));
    let taken = upload_block(&meta, &mut blocks, &limits, "x", info(9, 9, 10), vec![0], 0);
    assert_eq!(taken, Ok(()));
}

#[test]
fn upload_of_a_file_beyond_the_largest_total_is_refused() {
    let (mut meta, mut blocks) = stores();
    open_transfer(&mut meta, "x");
    let limits = Limits { max_block_size: 4, max_blocks_per_file: 2 };
    let taken = upload_block(&meta, &mut blocks, &limits, "x", info(0, 3, 9), vec![0; 4], 0);
    assert_eq!(taken, Err(ApiError::FileTooLarge));
    let taken = upload_block(&meta, &mut blocks, &limits, "x", info(0, 3, 8), vec![0; 4], 0);
    assert_eq!(taken, Ok(()));
}

#[test]
fn block_of_the_largest_size_is_accepted_one_byte_more_is_not() {
    let (mut meta, mut blocks) = stores();
    open_transfer(&mut meta, "x");
    let limits = Limits::defaults();
    let total = 1_048_576 * 4;
    let most = vec![7u8; 1_048_576];
    let taken = upload_block(&meta, &mut blocks, &limits, "x", info(0, 1_048_575, total), most, 0);
    assert_eq!(taken, Ok(()));
    let over = vec![7u8; 1_048_577];
    let taken = upload_block(&meta, &mut blocks, &limits, "x", info(0, 1_048_576, total), over, 0);
    assert_eq!(taken, Err(ApiError::BlockTooLarge));
    assert_eq!(ApiError::BlockTooLarge.status(), 400);
    assert_eq!(ApiError::BlockTooLarge.message(), "Block size exceeds maximum limitation");
}

#[test]
fn upload_whose_length_is_not_that_of_its_range_is_refused() {
    let (mut meta, mut blocks) = stores();
    open_transfer(&mut meta, "x");
    let limits = Limits::defaults();
    for len in [0usize, 9, 11] {
        let taken = upload_block(&meta, &mut blocks, &limits, "x", info(0, 9, 10), vec![0; len], 0);
        assert_eq!(taken, Err(ApiError::SizeMismatch));
    }
    // the widest range there is, with one byte
    let taken = upload_block(
        &meta,
        &mut blocks,
        &Limits { max_block_size: u64::MAX, max_blocks_per_file: usize::MAX },
        "x",
        info(0, u64::MAX, u64::MAX),
        vec![0],
        0,
    );
    assert_eq!(taken, Err(ApiError::SizeMismatch));
    assert_eq!(blocks.len(), 0);
}

#[test]
fn checks_come_in_their_order() {
    let (mut meta, mut blocks) = stores();
    let limits = Limits { max_block_size: 2, max_blocks_per_file: 0 };
    // everything is wrong: the unknown ID is named first
    let taken = upload_block(&meta, &mut blocks, &limits, "x", info(5, 4, 0), vec![0; 3], 0);
    assert_eq!(taken, Err(ApiError::MissingAccessId));
    open_transfer(&mut meta, "x");
    let taken = upload_block(&meta, &mut blocks, &limits, "x", info(5, 4, 9), vec![0; 3], 0);
    assert_eq!(taken, Err(ApiError::InvalidRange));
    let taken = upload_block(&meta, &mut blocks, &limits, "x", info(0, 0, 9), vec![0; 3], 0);
    assert_eq!(taken, Err(ApiError::FileTooLarge));
    let limits = Limits { max_block_size: 2, max_blocks_per_file: 5 };
    let taken = upload_block(&meta, &mut blocks, &limits, "x", info(0, 0, 9), vec![0; 3], 0);
    assert_eq!(taken, Err(ApiError::BlockTooLarge));
    let taken = upload_block(&meta, &mut blocks, &limits, "x", info(0, 0, 9), vec![0; 2], 0);
    assert_eq!(taken, Err(ApiError::SizeMismatch));
    let none = Limits { max_block_size: 0, max_blocks_per_file: 0 };
    let taken = upload_block(&meta, &mut blocks, &none, "x", info(0, 0, 0), vec![], 0);
    assert_eq!(taken, Err(ApiError::InvalidRange));
}

#[test]
fn accepted_block_is_stored_under_its_key_for_60_seconds() {
    let (mut meta, mut blocks) = stores();
    open_transfer(&mut meta, "abcde");
    let limits = Limits::defaults();
    let data = b"0123456789".to_vec();
    let taken = upload_block(&meta, &mut blocks, &limits, "abcde", info(0, 9, 10), data, 5_000);
    assert_eq!(taken, Ok(()));
    let entry = blocks.get("abcde:000000000000").unwrap();
    assert_eq!(entry.exp, 65_000);
    assert_eq!(entry.value.data, b"0123456789");
    assert_eq!(entry.value.filename, "a.bin");
    assert_eq!((entry.value.start, entry.value.end, entry.value.total), (0, 9, 10));
    assert_eq!(entry.value.data.len() as u64, entry.value.end - entry.value.start + 1);
    // the upload does not need a receiver, and leaves the record alone
    assert!(!meta.get("abcde").unwrap().value.is_using);
    // after 60 seconds the sweeper takes the block
    assert_eq!(sweep_blocks(&mut blocks, 64_999), 0);
    assert_eq!(sweep_blocks(&mut blocks, 65_000), 1);
    assert!(blocks.get("abcde:000000000000").is_none());
}

#[test]
fn upload_under_the_same_offset_replaces_the_block() {
    let (mut meta, mut blocks) = stores();
    open_transfer(&mut meta, "x");
    let limits = Limits::defaults();
    upload_block(&meta, &mut blocks, &limits, "x", info(0, 1, 4), vec![1, 1], 0).unwrap();
    upload_block(&meta, &mut blocks, &limits, "x", info(0, 1, 4), vec![2, 2], 0).unwrap();
    assert_eq!(blocks.len(), 1);
    assert_eq!(blocks.get(&block_key("x", 0)).unwrap().value.data, vec![2, 2]);
}

#[test]
fn blocks_are_admitted_up_to_the_cap() {
    let (mut meta, mut blocks) = stores();
    open_transfer(&mut meta, "zzzzz");
    open_transfer(&mut meta, "other");
    let limits = Limits::defaults();
    let total = 1_048_576u64 * 1024;
    for i in 0..1024u64 {
        let taken = upload_block(&meta, &mut blocks, &limits, "zzzzz", info(i, i, total), vec![0], 0);
        assert_eq!(taken, Ok(()), "block {}", i);
    }
    assert_eq!(blocks.count_prefix("zzzzz:", usize::MAX), 1024);
    let excess = upload_block(&meta, &mut blocks, &limits, "zzzzz", info(1024, 1024, total), vec![0], 0);
    assert_eq!(excess, Err(ApiError::TooManyBlocks));
    assert_eq!(ApiError::TooManyBlocks.status(), 400);
    assert_eq!(ApiError::TooManyBlocks.message(), "Maximum number of blocks per file reached");
    assert_eq!(blocks.len(), 1024);
    // another transfer is not held up
    let taken = upload_block(&meta, &mut blocks, &limits, "other", info(0, 0, total), vec![0], 0);
    assert_eq!(taken, Ok(()));
    // once a block is consumed there is room again
    assert!(consume_block(&mut blocks, "zzzzz", 3));
    let taken = upload_block(&meta, &mut blocks, &limits, "zzzzz", info(1024, 1024, total), vec![0], 0);
    assert_eq!(taken, Ok(()));
    assert_eq!(blocks.count_prefix("zzzzz:", usize::MAX), 1024);
}

#[test]
fn upload_steps_read_info_then_file() {
    let (mut meta, mut blocks) = stores();
    open_transfer(&mut meta, "x");
    let limits = Limits::defaults();
    let (state, action) = begin_upload(&meta, "x");
    assert!(matches!(state, UploadState::AwaitInfo));
    assert!(matches!(action, UploadAction::ReadPart));

    let event = UploadEvent::Part(part("info", b"{\"filename\":\"a.bin\"}"));
    let (state, action) = upload_file(state, event, &meta, &mut blocks, &limits, "x", 0);
    assert!(matches!(state, UploadState::AwaitParsed));
    match action {
        UploadAction::Parse(bytes) => assert_eq!(bytes, b"{\"filename\":\"a.bin\"}"),
        _ => panic!("the description is to be parsed"),
    }

    let event = UploadEvent::Parsed(Some(info(0, 9, 10)));
    let (state, action) = upload_file(state, event, &meta, &mut blocks, &limits, "x", 0);
    match &state {
        UploadState::AwaitFile(i) => assert_eq!((i.start, i.end, i.total), (0, 9, 10)),
        _ => panic!("the second part is due"),
    }
    assert!(matches!(action, UploadAction::ReadPart));
    assert_eq!(blocks.len(), 0);

    let event = UploadEvent::Part(part("file", b"0123456789"));
    let (state, action) = upload_file(state, event, &meta, &mut blocks, &limits, "x", 0);
    assert!(matches!(state, UploadState::Closed));
    assert!(matches!(action, UploadAction::Reply(Ok(()))));
    assert_eq!(blocks.get("x:000000000000").unwrap().value.data, b"0123456789");
}

#[test]
fn upload_steps_answer_each_fault() {
    let (mut meta, mut blocks) = stores();
    let limits = Limits::defaults();
    let (state, action) = begin_upload(&meta, "x");
    assert!(matches!(state, UploadState::Closed));
    assert!(matches!(action, UploadAction::Reply(Err(ApiError::MissingAccessId))));
    open_transfer(&mut meta, "x");

    let mut check = |state: UploadState, event: UploadEvent, expected: ApiError| {
        let (state, action) = upload_file(state, event, &meta, &mut blocks, &limits, "x", 0);
        assert!(matches!(state, UploadState::Closed));
        match action {
            UploadAction::Reply(Err(e)) => assert_eq!(e, expected),
            _ => panic!("an error is due"),
        }
    };
    check(UploadState::AwaitInfo, UploadEvent::Part(PartEvent::End), ApiError::MissingInfoPart);
    check(UploadState::AwaitInfo, UploadEvent::Part(PartEvent::Broken), ApiError::Internal);
    check(UploadState::AwaitInfo, UploadEvent::Part(part("file", b"")), ApiError::FirstNotInfo);
    check(
        UploadState::AwaitInfo,
        UploadEvent::Part(PartEvent::Part { name: None, content: Some(vec![]) }),
        ApiError::FieldNameMissing,
    );
    check(
        UploadState::AwaitInfo,
        UploadEvent::Part(PartEvent::Part { name: Some("info".to_string()), content: None }),
        ApiError::ReadFailed,
    );
    check(UploadState::AwaitParsed, UploadEvent::Parsed(None), ApiError::BadInfoJson);
    check(UploadState::AwaitFile(info(0, 9, 10)), UploadEvent::Part(PartEvent::End), ApiError::MissingFilePart);
    check(UploadState::AwaitFile(info(0, 9, 10)), UploadEvent::Part(part("info", b"")), ApiError::SecondNotFile);
    check(UploadState::AwaitFile(info(0, 9, 10)), UploadEvent::Part(part("file", b"123")), ApiError::SizeMismatch);
    check(UploadState::AwaitFile(info(9, 0, 10)), UploadEvent::Part(part("file", b"123")), ApiError::InvalidRange);
    // events that the state did not ask for
    check(UploadState::AwaitInfo, UploadEvent::Parsed(None), ApiError::Internal);
    check(UploadState::AwaitParsed, UploadEvent::Part(part("info", b"")), ApiError::Internal);
    check(UploadState::AwaitFile(info(0, 9, 10)), UploadEvent::Parsed(None), ApiError::Internal);
    check(UploadState::Closed, UploadEvent::Part(part("file", b"0123456789")), ApiError::Internal);
    assert_eq!(blocks.len(), 0);
}

#[test]
fn parse_download_needs_both_parameters() {
    assert!(matches!(parse_download(None, Some("0")), Err(ApiError::MissingRid)));
    assert!(matches!(parse_download(None, None), Err(ApiError::MissingRid)));
    assert!(matches!(parse_download(Some("r1"), None), Err(ApiError::MissingStart)));
    assert!(matches!(parse_download(Some("r1"), Some("x")), Err(ApiError::InvalidStart)));
    assert!(matches!(parse_download(Some("r1"), Some("")), Err(ApiError::InvalidStart)));
    assert!(matches!(parse_download(Some("r1"), Some("-1")), Err(ApiError::InvalidStart)));
    let req = parse_download(Some("r1"), Some("1048576")).ok().unwrap();
    assert_eq!(req.rid, "r1");
    assert_eq!(req.start, 1_048_576);
    let req = parse_download(Some(""), Some("0")).ok().unwrap();
    assert_eq!(req.rid, "");
    assert_eq!(req.start, 0);
    for e in [ApiError::MissingRid, ApiError::MissingStart, ApiError::InvalidStart] {
        assert_eq!(e.status(), 400);
    }
}

#[test]
fn download_begins_with_the_claim_at_offset_zero_only() {
    assert_eq!(begin_download(&request("r", 0)), DownloadState::Claim { attempts: 0 });
    assert_eq!(begin_download(&request("r", 1)), DownloadState::Verify);
    assert_eq!(begin_download(&request("r", u64::MAX)), DownloadState::Verify);
}

#[test]
fn upload_then_download_returns_the_same_bytes_and_range() {
    let (mut meta, mut blocks) = stores();
    open_transfer(&mut meta, "x");
    let limits = Limits::defaults();
    let body = b"0123456789".to_vec();
    assert_eq!(upload_block(&meta, &mut blocks, &limits, "x", info(0, 9, 10), body, 0), Ok(()));

    let exp = meta.get("x").unwrap().exp;
    let req = request("r1", 0);
    let (action, waited) = run_download(&mut meta, &blocks, "x", &req);
    assert_eq!(waited, 250);
    match action {
        DownloadAction::Deliver(block) => {
            assert_eq!(block.data, b"0123456789");
            assert_eq!(block.filename, "a.bin");
            assert_eq!(content_range(&block), "bytes 0-9/10");
            assert_eq!((block.start, block.end, block.total), (0, 9, 10));
        }
        _ => panic!("the block is due"),
    }
    // the claim is made, with the expiry as it was
    let entry = meta.get("x").unwrap();
    assert!(entry.value.is_using);
    assert_eq!(entry.value.used_by, "r1");
    assert_eq!(entry.exp, exp);

    // the block is consumed; the same download again finds none in time
    assert!(consume_block(&mut blocks, "x", 0));
    assert!(!consume_block(&mut blocks, "x", 0));
    let (action, waited) = run_download(&mut meta, &blocks, "x", &req);
    assert!(matches!(action, DownloadAction::Reply(ApiError::BlockNotReady)));
    assert_eq!(ApiError::BlockNotReady.status(), 425);
    assert_eq!(waited, 250 + 60 * 250);
}

#[test]
fn content_range_names_first_last_and_total() {
    let block = FileBlock::new(vec![], "f".to_string(), 1_048_576, 2_097_151, 5_242_880);
    assert_eq!(content_range(&block), "bytes 1048576-2097151/5242880");
    let block = FileBlock::new(vec![], "f".to_string(), 0, 0, u64::MAX);
    assert_eq!(content_range(&block), "bytes 0-0/18446744073709551615");
}

#[test]
fn download_of_a_block_that_never_comes_gives_up_after_fifteen_seconds() {
    let (mut meta, blocks) = stores();
    open_transfer(&mut meta, "y");
    // at offset zero: the claim, its settling time, then sixty waits
    let (action, waited) = run_download(&mut meta, &blocks, "y", &request("r1", 0));
    assert!(matches!(action, DownloadAction::Reply(ApiError::BlockNotReady)));
    assert_eq!(waited, 250 + 15_000);
    // at another offset: sixty waits
    let (action, waited) = run_download(&mut meta, &blocks, "y", &request("r1", 10));
    assert!(matches!(action, DownloadAction::Reply(ApiError::BlockNotReady)));
    assert_eq!(waited, 15_000);
    assert!(waited < 20_000);
}

#[test]
fn download_finds_a_block_that_comes_while_it_waits() {
    let (mut meta, mut blocks) = stores();
    open_transfer(&mut meta, "x");
    let limits = Limits::defaults();
    let req = request("r1", 0);
    let mut state = begin_download(&req);
    for _ in 0..5 {
        let (next, action) = get_file(state, &mut meta, &blocks, "x", &req);
        assert!(matches!(action, DownloadAction::Sleep { .. }));
        state = next;
    }
    assert_eq!(state, DownloadState::Fetch { retries: 4 });
    upload_block(&meta, &mut blocks, &limits, "x", info(0, 0, 1), vec![9], 0).unwrap();
    let (next, action) = get_file(state, &mut meta, &blocks, "x", &req);
    assert_eq!(next, DownloadState::Closed);
    match action {
        DownloadAction::Deliver(block) => assert_eq!(block.data, vec![9]),
        _ => panic!("the block is due"),
    }
}

#[test]
fn repeated_claim_by_the_same_receiver_changes_nothing() {
    let (mut meta, blocks) = stores();
    open_transfer(&mut meta, "x");
    let req = request("r1", 0);
    for _ in 0..3 {
        let (next, action) = get_file(DownloadState::Claim { attempts: 0 }, &mut meta, &blocks, "x", &req);
        assert_eq!(next, DownloadState::Verify);
        assert!(matches!(action, DownloadAction::Sleep { millis: 250 }));
        let entry = meta.get("x").unwrap();
        assert!(entry.value.is_using);
        assert_eq!(entry.value.used_by, "r1");
        assert_eq!(entry.exp, 86_400_000);
        assert!(!entry.value.done);
    }
}

#[test]
fn second_receiver_is_refused_and_the_first_keeps_the_claim() {
    let (mut meta, blocks) = stores();
    open_transfer(&mut meta, "x");
    let first = request("r1", 0);
    let second = request("r2", 0);
    get_file(begin_download(&first), &mut meta, &blocks, "x", &first);
    let (next, action) = get_file(begin_download(&second), &mut meta, &blocks, "x", &second);
    assert_eq!(next, DownloadState::Closed);
    assert!(matches!(action, DownloadAction::Reply(ApiError::FileInUse)));
    assert_eq!(ApiError::FileInUse.status(), 400);
    let entry = meta.get("x").unwrap();
    assert!(entry.value.is_using);
    assert_eq!(entry.value.used_by, "r1");
    // at another offset the second receiver is told that the ID is not its own
    let later = request("r2", 10);
    let (next, action) = get_file(begin_download(&later), &mut meta, &blocks, "x", &later);
    assert_eq!(next, DownloadState::Closed);
    assert!(matches!(action, DownloadAction::Reply(ApiError::WrongReceiveId)));
    assert_eq!(meta.get("x").unwrap().value.used_by, "r1");
}

#[test]
fn download_of_an_unknown_id_is_not_found() {
    let (mut meta, blocks) = stores();
    for start in [0u64, 5] {
        let req = request("r1", start);
        let (next, action) = get_file(begin_download(&req), &mut meta, &blocks, "nope", &req);
        assert_eq!(next, DownloadState::Closed);
        assert!(matches!(action, DownloadAction::Reply(ApiError::AccessIdNotFound)));
    }
    assert_eq!(ApiError::AccessIdNotFound.status(), 404);
    assert_eq!(meta.len(), 0);
}

#[test]
fn download_without_a_claim_is_refused_at_later_offsets() {
    let (mut meta, blocks) = stores();
    open_transfer(&mut meta, "x");
    let req = request("r1", 7);
    let (_, action) = get_file(begin_download(&req), &mut meta, &blocks, "x", &req);
    assert!(matches!(action, DownloadAction::Reply(ApiError::WrongReceiveId)));
    assert!(!meta.get("x").unwrap().value.is_using);
}

#[test]
fn block_that_lies_behind_the_offset_is_a_wrong_start() {
    let (mut meta, mut blocks) = stores();
    open_transfer(&mut meta, "x");
    // a block whose own start disagrees with its key
    let stray = FileBlock::new(vec![1], "f".to_string(), 9, 9, 10);
    blocks.insert(&block_key("x", 4), stray, 60, 0).unwrap();
    let req = request("r1", 4);
    let (next, action) = get_file(DownloadState::Fetch { retries: 0 }, &mut meta, &blocks, "x", &req);
    assert_eq!(next, DownloadState::Closed);
    assert!(matches!(action, DownloadAction::Reply(ApiError::WrongStart)));
    assert_eq!(ApiError::WrongStart.status(), 400);
}

#[test]
fn claim_that_the_store_does_not_take_is_tried_five_times() {
    let failed = || Err("busy".to_string());
    for attempts in 0..4u32 {
        let (next, action) = after_claim_update(failed(), attempts);
        assert_eq!(next, DownloadState::Claim { attempts: attempts + 1 });
        assert!(matches!(action, DownloadAction::Sleep { millis: 100 }));
    }
    for attempts in [4u32, 5, u32::MAX] {
        let (next, action) = after_claim_update(failed(), attempts);
        assert_eq!(next, DownloadState::Closed);
        assert!(matches!(action, DownloadAction::Reply(ApiError::Internal)));
    }
    let (next, action) = after_claim_update(Ok(()), 3);
    assert_eq!(next, DownloadState::Verify);
    assert!(matches!(action, DownloadAction::Sleep { millis: 250 }));
}

#[test]
fn fetch_counter_past_its_end_gives_up() {
    let (mut meta, blocks) = stores();
    let req = request("r", 1);
    for retries in [60u32, 61, u32::MAX] {
        let (next, action) = get_file(DownloadState::Fetch { retries }, &mut meta, &blocks, "x", &req);
        assert_eq!(next, DownloadState::Closed);
        assert!(matches!(action, DownloadAction::Reply(ApiError::BlockNotReady)));
    }
    let (next, action) = get_file(DownloadState::Fetch { retries: 59 }, &mut meta, &blocks, "x", &req);
    assert_eq!(next, DownloadState::Fetch { retries: 60 });
    assert!(matches!(action, DownloadAction::Sleep { millis: 250 }));
    let (next, action) = get_file(DownloadState::Closed, &mut meta, &blocks, "x", &req);
    assert_eq!(next, DownloadState::Closed);
    assert!(matches!(action, DownloadAction::Reply(ApiError::Internal)));
}

#[test]
fn done_survives_claims() {
    let (mut meta, blocks) = stores();
    open_transfer(&mut meta, "x");
    mark_done(&mut meta, "x").unwrap();
    let req = request("r1", 0);
    get_file(begin_download(&req), &mut meta, &blocks, "x", &req);
    let entry = meta.get("x").unwrap();
    assert!(entry.value.done);
    assert!(entry.value.is_using);
    assert_eq!(entry.value.used_by, "r1");
}
