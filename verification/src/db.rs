//! The two kinds of record that the relay keeps: the state of a transfer
//! under its access ID, and the blocks that wait to be fetched.

use crate::text::{lemma_padded_injective, padded, push_padded};
use vstd::prelude::*;

verus! {

/// The block size that a new transfer declares: one mebibyte.
pub const DEFAULT_BLOCK_SIZE: u32 = 1048576;

/// The number of characters to which a block's offset is filled up in its key.
pub const KEY_WIDTH: usize = 12;

/// Who holds a transfer: whether a receiver has claimed it, and which.
pub struct AccessCode {
    pub is_using: bool,
    pub used_by: String,
}

/// An `AccessCode` as a mathematical value.
pub ghost struct AccessCodeView {
    pub is_using: bool,
    pub used_by: Seq<char>,
}

impl View for AccessCode {
    type V = AccessCodeView;

    open spec fn view(&self) -> AccessCodeView {
        AccessCodeView { is_using: self.is_using, used_by: self.used_by@ }
    }
}

impl AccessCode {
    /// A transfer that nobody has claimed.
    pub fn new() -> (code: Self)
        ensures
            code@ == (AccessCodeView { is_using: false, used_by: Seq::empty() }),
    {
        AccessCode { is_using: false, used_by: String::new() }
    }
}

/// The state of one transfer.
pub struct MetaInfo {
    pub is_using: bool,
    pub used_by: String,
    pub block_size: u32,
    pub file_name: String,
    pub file_size: u64,
    pub done: bool,
}

/// A `MetaInfo` as a mathematical value.
pub ghost struct MetaView {
    pub is_using: bool,
    pub used_by: Seq<char>,
    pub block_size: u32,
    pub file_name: Seq<char>,
    pub file_size: u64,
    pub done: bool,
}

/// Where a transfer stands.
pub ghost enum SlotState {
    /// Issued, with no receiver.
    Open,
    /// Held by the receiver of this identity.
    Claimed(Seq<char>),
    /// The receiver has reported completion.
    Done,
}

impl MetaView {
    /// Where the transfer stands: done once completion was reported, else
    /// claimed while a receiver holds it, else open.
    pub open spec fn state(self) -> SlotState {
        if self.done {
            SlotState::Done
        } else if self.is_using {
            SlotState::Claimed(self.used_by)
        } else {
            SlotState::Open
        }
    }

    /// Whether holder and claim flag agree: a receiver is named exactly when
    /// the transfer is claimed.
    pub open spec fn consistent(self) -> bool {
        self.is_using <==> self.used_by.len() > 0
    }

    /// The record of a transfer as it is issued.
    pub open spec fn issued(file_name: Seq<char>, file_size: u64) -> MetaView {
        MetaView {
            is_using: false,
            used_by: Seq::empty(),
            block_size: DEFAULT_BLOCK_SIZE,
            file_name,
            file_size,
            done: false,
        }
    }

    /// This record, held by `rid`.
    pub open spec fn claimed_by(self, rid: Seq<char>) -> MetaView {
        MetaView { is_using: true, used_by: rid, ..self }
    }

    /// This record, held by nobody.
    pub open spec fn released(self) -> MetaView {
        MetaView { is_using: false, used_by: Seq::empty(), ..self }
    }

    /// This record, with completion reported.
    pub open spec fn completed(self) -> MetaView {
        MetaView { done: true, ..self }
    }
}

impl View for MetaInfo {
    type V = MetaView;

    open spec fn view(&self) -> MetaView {
        MetaView {
            is_using: self.is_using,
            used_by: self.used_by@,
            block_size: self.block_size,
            file_name: self.file_name@,
            file_size: self.file_size,
            done: self.done,
        }
    }
}

impl Clone for MetaInfo {
    fn clone(&self) -> (copy: Self)
        ensures
            copy@ == self@,
    {
        MetaInfo {
            is_using: self.is_using,
            used_by: self.used_by.clone(),
            block_size: self.block_size,
            file_name: self.file_name.clone(),
            file_size: self.file_size,
            done: self.done,
        }
    }
}

impl MetaInfo {
    /// The record of a newly issued transfer: unclaimed, not done, with the
    /// default block size.
    pub fn new(file_name: String, file_size: u64) -> (meta: Self)
        ensures
            meta@ == MetaView::issued(file_name@, file_size),
    {
        MetaInfo {
            is_using: false,
            used_by: String::new(),
            block_size: DEFAULT_BLOCK_SIZE,
            file_name,
            file_size,
            done: false,
        }
    }

    /// Who holds the transfer.
    pub fn access(&self) -> (code: AccessCode)
        ensures
            code@ == (AccessCodeView { is_using: self@.is_using, used_by: self@.used_by }),
    {
        AccessCode { is_using: self.is_using, used_by: self.used_by.clone() }
    }

    /// A copy of this record that `rid` holds.
    pub fn claimed_by(&self, rid: &str) -> (meta: Self)
        ensures
            meta@ == self@.claimed_by(rid@),
    {
        let mut meta = self.clone();
        meta.is_using = true;
        meta.used_by = rid.to_owned();
        meta
    }

    /// A copy of this record that nobody holds.
    pub fn released(&self) -> (meta: Self)
        ensures
            meta@ == self@.released(),
    {
        let mut meta = self.clone();
        meta.is_using = false;
        meta.used_by = String::new();
        meta
    }

    /// A copy of this record with completion reported.
    pub fn completed(&self) -> (meta: Self)
        ensures
            meta@ == self@.completed(),
    {
        let mut meta = self.clone();
        meta.done = true;
        meta
    }
}

/// One block of a file on its way to the receiver.
pub struct FileBlock {
    pub data: Vec<u8>,
    pub filename: String,
    pub start: u64,
    pub end: u64,
    pub total: u64,
}

/// A `FileBlock` as a mathematical value.
pub ghost struct FileBlockView {
    pub data: Seq<u8>,
    pub filename: Seq<char>,
    pub start: u64,
    pub end: u64,
    pub total: u64,
}

impl FileBlockView {
    /// Whether the block's range lies in the file and its payload has the
    /// length of the range: `start <= end`, `start < total`, and
    /// `end - start + 1` bytes.
    pub open spec fn well_formed(self) -> bool {
        &&& self.start <= self.end
        &&& self.start < self.total
        &&& self.data.len() == self.end - self.start + 1
    }
}

impl View for FileBlock {
    type V = FileBlockView;

    open spec fn view(&self) -> FileBlockView {
        FileBlockView {
            data: self.data@,
            filename: self.filename@,
            start: self.start,
            end: self.end,
            total: self.total,
        }
    }
}

impl Clone for FileBlock {
    fn clone(&self) -> (copy: Self)
        ensures
            copy@ == self@,
    {
        FileBlock {
            data: self.data.clone(),
            filename: self.filename.clone(),
            start: self.start,
            end: self.end,
            total: self.total,
        }
    }
}

impl FileBlock {
    /// A block of the given payload and range. Nothing is checked here.
    pub fn new(data: Vec<u8>, filename: String, start: u64, end: u64, total: u64) -> (block: Self)
        ensures
            block@ == (FileBlockView { data: data@, filename: filename@, start, end, total }),
    {
        FileBlock { data, filename, start, end, total }
    }
}

/// What the keys of all blocks of the transfer `id` begin with: the ID and a
/// colon.
pub open spec fn block_prefix_text(id: Seq<char>) -> Seq<char> {
    id.push(':')
}

/// The key of the block of transfer `id` at offset `start`: the ID, a colon,
/// and the offset in decimal, filled up with zeros to twelve digits.
pub open spec fn block_key_text(id: Seq<char>, start: u64) -> Seq<char> {
    block_prefix_text(id) + padded(start as nat, KEY_WIDTH as nat)
}

/// Computes `block_prefix_text(id)`.
pub fn block_prefix(id: &str) -> (prefix: String)
    ensures
        prefix@ == block_prefix_text(id@),
{
    let mut prefix = id.to_owned();
    prefix.push(':');
    prefix
}

/// Computes `block_key_text(id, start)`.
pub fn block_key(id: &str, start: u64) -> (key: String)
    ensures
        key@ == block_key_text(id@, start),
{
    let mut key = block_prefix(id);
    push_padded(&mut key, start, KEY_WIDTH);
    key
}

/// Every block key of a transfer begins with the transfer's prefix.
pub proof fn lemma_block_key_has_prefix(id: Seq<char>, start: u64)
    ensures
        block_prefix_text(id).is_prefix_of(block_key_text(id, start)),
{
    let prefix = block_prefix_text(id);
    let key = block_key_text(id, start);
    assert(key.subrange(0, prefix.len() as int) == prefix);
}

/// Blocks of one transfer at different offsets have different keys.
pub proof fn lemma_block_key_injective(id: Seq<char>, a: u64, b: u64)
    requires
        block_key_text(id, a) == block_key_text(id, b),
    ensures
        a == b,
{
    let prefix = block_prefix_text(id);
    let ka = block_key_text(id, a);
    let kb = block_key_text(id, b);
    let pa = padded(a as nat, KEY_WIDTH as nat);
    let pb = padded(b as nat, KEY_WIDTH as nat);
    assert(ka.subrange(prefix.len() as int, ka.len() as int) == pa);
    assert(kb.subrange(prefix.len() as int, kb.len() as int) == pb);
    lemma_padded_injective(a as nat, b as nat, KEY_WIDTH as nat);
}

/// Whether `id` holds no colon, so that the keys of its blocks cannot be
/// taken for those of another transfer.
pub open spec fn colon_free(id: Seq<char>) -> bool {
    forall|i: int| 0 <= i < id.len() ==> #[trigger] id[i] != ':'
}

/// Among transfers whose IDs hold no colon, a block's key begins with the
/// prefix of its own transfer only.
pub proof fn lemma_block_key_owner(id: Seq<char>, other: Seq<char>, start: u64)
    requires
        colon_free(id),
        colon_free(other),
        block_prefix_text(other).is_prefix_of(block_key_text(id, start)),
    ensures
        other == id,
{
    let key = block_key_text(id, start);
    let prefix = block_prefix_text(other);
    let n = id.len() as int;
    let m = other.len() as int;
    assert(key.subrange(0, prefix.len() as int) == prefix);
    assert(prefix[m] == ':');
    assert(key[n] == ':');
    if m < n {
        assert(key.subrange(0, prefix.len() as int)[m] == key[m]);
        assert(key[m] == id[m]);
    } else if m > n {
        assert(key.subrange(0, prefix.len() as int)[n] == key[n]);
        assert(prefix[n] == other[n]);
    } else {
        assert forall|i: int| 0 <= i < n implies id[i] == other[i] by {
            assert(key.subrange(0, prefix.len() as int)[i] == key[i]);
            assert(prefix[i] == other[i]);
            assert(key[i] == id[i]);
        }
        assert(other =~= id);
    }
}

/// Completion, once reported, stays reported: neither a claim nor a release
/// nor a second report takes it back.
pub proof fn lemma_done_stays(record: MetaView, rid: Seq<char>)
    requires
        record.done,
    ensures
        record.claimed_by(rid).done,
        record.released().done,
        record.completed().done,
{
}

/// Reporting completion twice leaves what reporting it once leaves.
pub proof fn lemma_completed_twice(record: MetaView)
    ensures
        record.completed().completed() == record.completed(),
        record.completed().state() == SlotState::Done,
{
}

/// Holder and claim flag agree in a new record, and go on to agree through
/// a claim by a receiver whose identity is not empty, through a release, and
/// through the report of completion.
pub proof fn lemma_holder_agrees(
    record: MetaView,
    rid: Seq<char>,
    file_name: Seq<char>,
    file_size: u64,
)
    requires
        record.consistent(),
        rid.len() > 0,
    ensures
        MetaView::issued(file_name, file_size).consistent(),
        record.claimed_by(rid).consistent(),
        record.released().consistent(),
        record.completed().consistent(),
{
}

} // verus!
