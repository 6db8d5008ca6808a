//! The local data the tool keeps under its data home: which files it manages, what an
//! inventory and a purge report hold.

use vstd::prelude::*;

use crate::text::eq_lit;

verus! {

pub const DATA_SCHEMA_VERSION: u8 = 5;

/// One managed file (or directory) and what was found of it.
#[derive(Debug, Clone, PartialEq, Eq)]
pub struct DataFile {
    pub kind: String,
    pub path: String,
    pub exists: bool,
    pub bytes: u64,
    pub records: usize,
}

/// Every managed file under the data home.
#[derive(Debug, Clone, PartialEq, Eq)]
pub struct DataInventory {
    pub schema_version: u8,
    pub data_home: String,
    pub files: Vec<DataFile>,
}

/// What a purge removed, or would remove in a dry run.
#[derive(Debug, Clone, PartialEq, Eq)]
pub struct PurgeReport {
    pub schema_version: u8,
    pub dry_run: bool,
    pub removed: Vec<String>,
}

/// The kinds of managed data and their paths relative to the data home, in listing order.
pub open spec fn managed_files() -> Seq<(Seq<char>, Seq<char>)> {
    seq![
        ("telemetry"@, "events.jsonl"@),
        ("hookRecords"@, "hooks.jsonl"@),
        ("hookDedupe"@, "hook-dedupe.json"@),
        ("hookDedupeLock"@, "hook-dedupe.lock"@),
        ("hookDedupeTemps"@, ".hook-dedupe-tmp"@),
        ("compactionRecords"@, "compaction/hook-records.jsonl"@),
        ("compactionCheckpoints"@, "compaction/checkpoints.jsonl"@),
        ("decisionReceipts"@, "decisions.jsonl"@),
        ("reviewReceipts"@, "reviews.jsonl"@),
    ]
}

/// The managed kinds and relative paths.
pub fn managed_file_list() -> (res: Vec<(&'static str, &'static str)>)
    ensures
        res@.len() == managed_files().len(),
        forall|i: int| 0 <= i < res@.len() ==> (#[trigger] res@[i]).0@ == managed_files()[i].0 && res@[i].1@
            == managed_files()[i].1,
{
    let v = vec![
        ("telemetry", "events.jsonl"),
        ("hookRecords", "hooks.jsonl"),
        ("hookDedupe", "hook-dedupe.json"),
        ("hookDedupeLock", "hook-dedupe.lock"),
        ("hookDedupeTemps", ".hook-dedupe-tmp"),
        ("compactionRecords", "compaction/hook-records.jsonl"),
        ("compactionCheckpoints", "compaction/checkpoints.jsonl"),
        ("decisionReceipts", "decisions.jsonl"),
        ("reviewReceipts", "reviews.jsonl"),
    ];
    v
}

pub open spec fn is_dedupe_kind(kind: Seq<char>) -> bool {
    kind == "hookDedupe"@ || kind == "hookDedupeLock"@ || kind == "hookDedupeTemps"@
}

/// A purge must hold the de-duplication lock when any of the de-duplication files exists.
pub fn needs_dedupe_lock(inventory: &DataInventory) -> (res: bool)
    ensures
        res == exists|i: int| 0 <= i < inventory.files@.len() && (#[trigger] inventory.files@[i]).exists
            && is_dedupe_kind(inventory.files@[i].kind@),
{
    let mut i: usize = 0;
    while i < inventory.files.len()
        invariant
            i <= inventory.files.len(),
            forall|k: int| 0 <= k < i ==> !((#[trigger] inventory.files@[k]).exists && is_dedupe_kind(inventory.files@[k].kind@)),
        decreases inventory.files.len() - i,
    {
        let f = &inventory.files[i];
        let kc = crate::text::chars_of(f.kind.as_str());
        if f.exists && (eq_lit(&kc, "hookDedupe") || eq_lit(&kc, "hookDedupeLock") || eq_lit(&kc, "hookDedupeTemps")) {
            return true;
        }
        i = i + 1;
    }
    false
}

/// The records of a line-oriented file: its lines that hold anything but ASCII whitespace.
pub open spec fn is_blank_byte(b: u8) -> bool {
    b == 0x20 || b == 0x09 || b == 0x0a || b == 0x0c || b == 0x0d
}

pub open spec fn count_records(bytes: Seq<u8>, from: int, in_line_content: bool) -> nat
    decreases bytes.len() - from,
{
    if from >= bytes.len() || from < 0 {
        if in_line_content { 1 } else { 0 }
    } else if bytes[from] == 0x0a {
        (if in_line_content { 1nat } else { 0nat }) + count_records(bytes, from + 1, false)
    } else {
        count_records(bytes, from + 1, in_line_content || !is_blank_byte(bytes[from]))
    }
}

/// How many records a managed file holds: lines that are not blank.
pub fn record_count(bytes: &[u8]) -> (res: usize)
    ensures
        res == count_records(bytes@, 0, false),
{
    let mut n: usize = 0;
    let mut content = false;
    let mut i: usize = 0;
    while i < bytes.len()
        invariant
            i <= bytes.len(),
            n <= i,
            content ==> n < i,
            n + count_records(bytes@, i as int, content) == count_records(bytes@, 0, false),
        decreases bytes.len() - i,
    {
        let b = bytes[i];
        if b == 0x0a {
            if content {
                n = n + 1;
            }
            content = false;
        } else if !(b == 0x20 || b == 0x09 || b == 0x0a || b == 0x0c || b == 0x0d) {
            content = true;
        }
        i = i + 1;
    }
    if content {
        n + 1
    } else {
        n
    }
}


/// What a purge does with a managed file.
#[derive(Debug, Clone, Copy, PartialEq, Eq, Structural)]
pub enum PurgeAction {
    /// Missing, or the de-duplication lock (which is never removed).
    Keep,
    /// The de-duplication temp directory: the files in it are removed.
    RemoveFilesInside,
    /// Removed.
    Remove,
}

pub fn purge_action(file: &DataFile) -> (res: PurgeAction)
    ensures
        res == (if !file.exists || file.kind@ == "hookDedupeLock"@ {
            PurgeAction::Keep
        } else if file.kind@ == "hookDedupeTemps"@ {
            PurgeAction::RemoveFilesInside
        } else {
            PurgeAction::Remove
        }),
{
    let kc = crate::text::chars_of(file.kind.as_str());
    if !file.exists || eq_lit(&kc, "hookDedupeLock") {
        PurgeAction::Keep
    } else if eq_lit(&kc, "hookDedupeTemps") {
        PurgeAction::RemoveFilesInside
    } else {
        PurgeAction::Remove
    }
}

} // verus!
