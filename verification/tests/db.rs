use fileflow::db::{block_key, block_prefix, AccessCode, FileBlock, MetaInfo, DEFAULT_BLOCK_SIZE};

#[test]
fn new_meta_is_open() {
    let meta = MetaInfo::new("a.bin".to_string(), 10);
    assert_eq!(meta.file_name, "a.bin");
    assert_eq!(meta.file_size, 10);
    assert_eq!(meta.block_size, 1024 * 1024);
    assert_eq!(DEFAULT_BLOCK_SIZE, 1_048_576);
    assert!(!meta.is_using);
    assert_eq!(meta.used_by, "");
    assert!(!meta.done);
}

#[test]
fn new_access_code_is_unclaimed() {
    let code = AccessCode::new();
    assert!(!code.is_using);
    assert_eq!(code.used_by, "");
}

#[test]
fn claim_release_and_completion_change_their_fields_only() {
    let meta = MetaInfo::new("a.bin".to_string(), 10);
    let claimed = meta.claimed_by("r1");
    assert!(claimed.is_using);
    assert_eq!(claimed.used_by, "r1");
    assert_eq!(claimed.file_name, "a.bin");
    assert_eq!(claimed.file_size, 10);
    assert!(!claimed.done);
    let code = claimed.access();
    assert!(code.is_using);
    assert_eq!(code.used_by, "r1");

    let done = claimed.completed();
    assert!(done.done);
    assert!(done.is_using);
    assert_eq!(done.used_by, "r1");
    assert!(done.completed().done);

    let released = done.released();
    assert!(!released.is_using);
    assert_eq!(released.used_by, "");
    assert!(released.done);
    assert_eq!(released.file_name, "a.bin");
    assert_eq!(released.block_size, 1_048_576);
}

#[test]
fn meta_clone_copies_every_field() {
    let meta = MetaInfo::new("n".to_string(), 3).claimed_by("r").completed();
    let copy = meta.clone();
    assert_eq!(copy.file_name, "n");
    assert_eq!(copy.file_size, 3);
    assert_eq!(copy.used_by, "r");
    assert!(copy.is_using && copy.done);
    assert_eq!(copy.block_size, meta.block_size);
}

#[test]
fn new_block_holds_what_it_is_given() {
    let block = FileBlock::new(vec![1, 2, 3], "f".to_string(), 4, 6, 9);
    assert_eq!(block.data, vec![1, 2, 3]);
    assert_eq!(block.filename, "f");
    assert_eq!((block.start, block.end, block.total), (4, 6, 9));
    let copy = block.clone();
    assert_eq!(copy.data, vec![1, 2, 3]);
    assert_eq!(copy.filename, "f");
    assert_eq!((copy.start, copy.end, copy.total), (4, 6, 9));
}

#[test]
fn block_key_is_id_colon_and_twelve_digits() {
    assert_eq!(block_key("abcde", 0), "abcde:000000000000");
    assert_eq!(block_key("abcde", 1048576), "abcde:000001048576");
    assert_eq!(block_key("x", 999_999_999_999), "x:999999999999");
    assert_eq!(block_key("x", 1_000_000_000_000), "x:1000000000000");
    assert_eq!(block_key("", 5), ":000000000005");
    assert_eq!(block_key("x", u64::MAX), "x:18446744073709551615");
    assert_eq!(block_prefix("abcde"), "abcde:");
    assert_eq!(block_prefix(""), ":");
}

#[test]
fn block_keys_differ_by_offset_and_share_the_prefix() {
    let starts = [0u64, 1, 10, 100, 1048576, 2097152, 999_999_999_999, 1_000_000_000_000, u64::MAX];
    for a in starts {
        assert!(block_key("id", a).starts_with(&block_prefix("id")));
        for b in starts {
            assert_eq!(block_key("id", a) == block_key("id", b), a == b);
        }
    }
}
