//! The operation log: a bounded, creation-ordered list of checkpoints, each naming a
//! directory that holds a copy of the lexicon taken before a destructive operation.
use crate::lexicon::BucketView;
use crate::models::{OperationLog, OperationLogEntry};
use crate::text::{decimal, fixed_digits, join_path, path_join, push_fixed_digits, to_decimal};
use vstd::prelude::*;

verus! {

/// The directory of the operation log inside a language directory.
pub fn oplog_dir(language_dir: &str) -> (r: String)
    ensures
        r@ == path_join(language_dir@, ".oplog"@),
{
    join_path(language_dir, ".oplog")
}

/// The file of the operation log inside a language directory.
pub fn oplog_file(language_dir: &str) -> (r: String)
    ensures
        r@ == path_join(path_join(language_dir@, ".oplog"@), "oplog.json"@),
{
    let dir = oplog_dir(language_dir);
    join_path(dir.as_str(), "oplog.json")
}

/// The timestamp of a checkpoint: seconds since the Unix epoch, in decimal.
pub fn now_iso(secs: u64) -> (r: String)
    ensures
        r@ == decimal(secs as nat),
{
    to_decimal(secs)
}

/// A checkpoint id: a 64-bit value as sixteen lowercase hexadecimal digits.
pub fn generate_log_id(value: u64) -> (r: String)
    ensures
        r@ == fixed_digits(value as nat, 16, 16),
{
    let mut r = String::new();
    push_fixed_digits(&mut r, value as u128, 16, 16);
    r
}

/// The snapshot directory of a checkpoint, named after its id.
pub open spec fn snapshot_dir_of(log_id: Seq<char>) -> Seq<char> {
    "snap_"@ + log_id
}

/// The checkpoints kept when at most `max` may be: the newest ones.
pub open spec fn retained(s: Seq<OperationLogEntry>, max: nat) -> Seq<OperationLogEntry> {
    if s.len() > max {
        s.skip(s.len() - max)
    } else {
        s
    }
}

/// The checkpoints dropped when at most `max` may be kept: the oldest ones.
pub open spec fn evicted(s: Seq<OperationLogEntry>, max: nat) -> Seq<OperationLogEntry> {
    if s.len() > max {
        s.take(s.len() - max)
    } else {
        Seq::empty()
    }
}

pub open spec fn log_ids(s: Seq<OperationLogEntry>) -> Seq<Seq<char>> {
    s.map_values(|e: OperationLogEntry| e.log_id@)
}

/// Each checkpoint's snapshot directory is named after its id.
pub open spec fn log_wf(s: Seq<OperationLogEntry>) -> bool {
    forall|i: int| 0 <= i < s.len() ==> (#[trigger] s[i]).snapshot_dir@ == snapshot_dir_of(s[i].log_id@)
}

/// No two checkpoints share an id.
pub open spec fn ids_unique(s: Seq<OperationLogEntry>) -> bool {
    forall|i: int, j: int| 0 <= i < j < s.len() ==> s[i].log_id@ != s[j].log_id@
}

/// The index of the first checkpoint with id `id`, or -1.
pub open spec fn checkpoint_position(s: Seq<OperationLogEntry>, id: Seq<char>) -> int {
    crate::lexicon::first_index(log_ids(s), id)
}

/// The lexicon copies kept under the log's directory, by snapshot directory, after the
/// directories of `dropped` are deleted one after the other.
pub open spec fn remove_snapshots(
    snaps: Map<Seq<char>, Seq<BucketView>>,
    dropped: Seq<OperationLogEntry>,
) -> Map<Seq<char>, Seq<BucketView>>
    decreases dropped.len(),
{
    if dropped.len() == 0 {
        snaps
    } else {
        remove_snapshots(snaps, dropped.drop_last()).remove(dropped.last().snapshot_dir@)
    }
}

impl OperationLog {
    /// Drops the oldest checkpoints until at most `max_snapshots` are left; returns
    /// them, oldest first.
    fn enforce_limit(&mut self) -> (r: Vec<OperationLogEntry>)
        ensures
            final(self).max_snapshots == old(self).max_snapshots,
            final(self).entries@ == retained(old(self).entries@, old(self).max_snapshots as nat),
            r@ == evicted(old(self).entries@, old(self).max_snapshots as nat),
    {
        let ghost s = self.entries@;
        let ghost max = self.max_snapshots as nat;
        let mut out: Vec<OperationLogEntry> = Vec::new();
        let limit = self.max_snapshots as usize;
        while self.entries.len() > limit
            invariant
                limit as nat == max,
                self.max_snapshots == old(self).max_snapshots,
                s == old(self).entries@,
                out.len() + self.entries.len() == s.len(),
                out@ == s.take(out.len() as int),
                self.entries@ == s.skip(out.len() as int),
                s.len() > max ==> out.len() <= s.len() - max,
                s.len() <= max ==> out.len() == 0,
            decreases self.entries.len(),
        {
            let e = self.entries.remove(0);
            proof {
                assert(e == s[out.len() as int]);
            }
            out.push(e);
            assert(out@ =~= s.take(out.len() as int));
            assert(self.entries@ =~= s.skip(out.len() as int));
        }
        assert(s.skip(0) =~= s);
        out
    }

    /// Appends a checkpoint with id `log_id`, its snapshot directory `snap_<log_id>`,
    /// then drops the oldest checkpoints beyond the maximum. Returns the dropped ones,
    /// oldest first: their snapshot directories are to be deleted.
    pub fn checkpoint(
        &mut self,
        log_id: String,
        operation_type: String,
        timestamp: String,
        source_language_id: String,
        target_language_id: String,
        description: String,
    ) -> (r: (OperationLogEntry, Vec<OperationLogEntry>))
        ensures
            r.0.log_id@ == log_id@,
            r.0.operation_type@ == operation_type@,
            r.0.timestamp@ == timestamp@,
            r.0.source_language_id@ == source_language_id@,
            r.0.target_language_id@ == target_language_id@,
            r.0.description@ == description@,
            r.0.snapshot_dir@ == snapshot_dir_of(log_id@),
            final(self).max_snapshots == old(self).max_snapshots,
            final(self).entries@ == retained(
                old(self).entries@.push(r.0),
                old(self).max_snapshots as nat,
            ),
            r.1@ == evicted(old(self).entries@.push(r.0), old(self).max_snapshots as nat),
    {
        let mut snapshot_dir = String::from_str("snap_");
        snapshot_dir.append(log_id.as_str());
        let entry = OperationLogEntry {
            log_id: log_id.clone(),
            operation_type,
            timestamp,
            source_language_id,
            target_language_id,
            description,
            snapshot_dir,
        };
        let record = OperationLogEntry {
            log_id: entry.log_id.clone(),
            operation_type: entry.operation_type.clone(),
            timestamp: entry.timestamp.clone(),
            source_language_id: entry.source_language_id.clone(),
            target_language_id: entry.target_language_id.clone(),
            description: entry.description.clone(),
            snapshot_dir: entry.snapshot_dir.clone(),
        };
        self.entries.push(entry);
        let dropped = self.enforce_limit();
        (record, dropped)
    }

    /// Sets the maximum number of checkpoints and drops the oldest beyond it; returns
    /// the dropped ones, oldest first.
    pub fn set_retention(&mut self, max_snapshots: u32) -> (r: Vec<OperationLogEntry>)
        ensures
            final(self).max_snapshots == max_snapshots,
            final(self).entries@ == retained(old(self).entries@, max_snapshots as nat),
            r@ == evicted(old(self).entries@, max_snapshots as nat),
    {
        self.max_snapshots = max_snapshots;
        self.enforce_limit()
    }

    /// Rolls the log back to the checkpoint with id `log_id`: removes it and every later
    /// checkpoint and returns them in order, the one to restore first. Fails, leaving
    /// the log as it is, when no checkpoint has that id.
    pub fn rollback(&mut self, log_id: &String) -> (r: Option<Vec<OperationLogEntry>>)
        ensures
            r is None <==> checkpoint_position(old(self).entries@, log_id@) == -1,
            r is None ==> *final(self) == *old(self),
            r is Some ==> ({
                let i = checkpoint_position(old(self).entries@, log_id@);
                &&& final(self).max_snapshots == old(self).max_snapshots
                &&& final(self).entries@ == old(self).entries@.take(i)
                &&& r->0@ == old(self).entries@.skip(i)
                &&& r->0@.len() >= 1
                &&& r->0@[0].log_id@ == log_id@
            }),
    {
        let ghost s = self.entries@;
        proof {
            crate::lexicon::lemma_first_index(log_ids(s), log_id@);
        }
        let mut i: usize = 0;
        while i < self.entries.len()
            invariant
                *self == *old(self),
                s == old(self).entries@,
                self.entries@ == s,
                i <= s.len(),
                forall|k: int| 0 <= k < i ==> log_ids(s)[k] != log_id@,
            decreases s.len() - i,
        {
            assert(log_ids(s)[i as int] == s[i as int].log_id@);
            if self.entries[i].log_id == *log_id {
                proof {
                    crate::lexicon::lemma_first_index(log_ids(s), log_id@);
                    let fi = checkpoint_position(s, log_id@);
                    if fi >= 0 && fi < i {
                        assert(log_ids(s)[fi] != log_id@);
                    }
                }
                let tail = self.entries.split_off(i);
                assert(tail@ =~= s.skip(i as int));
                assert(self.entries@ =~= s.take(i as int));
                return Some(tail);
            }
            i = i + 1;
        }
        None
    }
}

} // verus!
