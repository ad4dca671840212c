//! What holds of the operation log across calls: the retention bound, undo by rollback,
//! and the linear history that rollback leaves.
use crate::lexicon::{lemma_first_index, BucketView};
use crate::models::OperationLogEntry;
use crate::oplog::{
    checkpoint_position, evicted, ids_unique, log_ids, log_wf, remove_snapshots, retained,
    snapshot_dir_of,
};
use vstd::prelude::*;

verus! {

/// Whatever the log held, after a checkpoint or a change of the maximum it holds at most
/// the maximum, and the checkpoints dropped are the oldest: the log before is exactly
/// the dropped checkpoints followed by the kept ones.
pub proof fn lemma_retention(s: Seq<OperationLogEntry>, max: nat)
    ensures
        retained(s, max).len() <= max,
        evicted(s, max) + retained(s, max) == s,
{
    if s.len() > max {
        assert(s.take(s.len() - max) + s.skip(s.len() - max) =~= s);
    } else {
        assert(Seq::<OperationLogEntry>::empty() + s =~= s);
    }
}

proof fn lemma_remove_snapshots_keeps(
    snaps: Map<Seq<char>, Seq<BucketView>>,
    dropped: Seq<OperationLogEntry>,
    key: Seq<char>,
)
    requires
        forall|k: int| 0 <= k < dropped.len() ==> (#[trigger] dropped[k]).snapshot_dir@ != key,
    ensures
        remove_snapshots(snaps, dropped).contains_key(key) == snaps.contains_key(key),
        remove_snapshots(snaps, dropped)[key] == snaps[key],
    decreases dropped.len(),
{
    if dropped.len() > 0 {
        let d = dropped.drop_last();
        assert forall|k: int| 0 <= k < d.len() implies (#[trigger] d[k]).snapshot_dir@ != key by {
            assert(d[k] == dropped[k]);
        }
        lemma_remove_snapshots_keeps(snaps, d, key);
    }
}

proof fn lemma_remove_snapshots_gone(
    snaps: Map<Seq<char>, Seq<BucketView>>,
    dropped: Seq<OperationLogEntry>,
    k: int,
)
    requires
        0 <= k < dropped.len(),
    ensures
        !remove_snapshots(snaps, dropped).contains_key(dropped[k].snapshot_dir@),
    decreases dropped.len(),
{
    let d = dropped.drop_last();
    if k < dropped.len() - 1 {
        assert(d[k] == dropped[k]);
        lemma_remove_snapshots_gone(snaps, d, k);
    }
}

proof fn lemma_snapshot_dir_injective(a: Seq<char>, b: Seq<char>)
    requires
        snapshot_dir_of(a) == snapshot_dir_of(b),
    ensures
        a == b,
{
    let p = "snap_"@;
    assert(snapshot_dir_of(a).subrange(p.len() as int, snapshot_dir_of(a).len() as int) =~= a);
    assert(snapshot_dir_of(b).subrange(p.len() as int, snapshot_dir_of(b).len() as int) =~= b);
}

/// A checkpoint followed at once by a rollback to it gives back the lexicon it was taken
/// of: the rollback finds the new checkpoint first among those it discards, and its
/// snapshot directory, left in place by retention, holds the lexicon as it was. This
/// holds where the log keeps at least one checkpoint, every snapshot directory is named
/// after its checkpoint's id, and the new id is not in the log yet.
pub proof fn lemma_checkpoint_then_rollback(
    log: Seq<OperationLogEntry>,
    max: nat,
    e: OperationLogEntry,
    live: Seq<BucketView>,
    snaps: Map<Seq<char>, Seq<BucketView>>,
)
    requires
        max >= 1,
        log_wf(log),
        e.snapshot_dir@ == snapshot_dir_of(e.log_id@),
        forall|i: int| 0 <= i < log.len() ==> (#[trigger] log[i]).log_id@ != e.log_id@,
    ensures
        ({
            let kept = retained(log.push(e), max);
            let snaps1 = remove_snapshots(
                snaps.insert(e.snapshot_dir@, live),
                evicted(log.push(e), max),
            );
            let i = checkpoint_position(kept, e.log_id@);
            &&& 0 <= i < kept.len()
            &&& kept.skip(i)[0] == e
            &&& snaps1.contains_key(kept.skip(i)[0].snapshot_dir@)
            &&& snaps1[kept.skip(i)[0].snapshot_dir@] == live
        }),
{
    let s = log.push(e);
    let kept = retained(s, max);
    let ev = evicted(s, max);
    lemma_retention(s, max);
    assert(kept.len() >= 1);
    assert(kept.last() == e) by {
        if s.len() > max {
            assert(kept[kept.len() - 1] == s[s.len() - 1]);
        }
    }
    let n = kept.len() - 1;
    assert forall|k: int| 0 <= k < n implies log_ids(kept)[k] != e.log_id@ by {
        if s.len() > max {
            assert(kept[k] == s[k + s.len() - max]);
            assert(s[k + s.len() - max] == log[k + s.len() - max]);
        } else {
            assert(kept[k] == log[k]);
        }
    }
    lemma_first_index(log_ids(kept), e.log_id@);
    let i = checkpoint_position(kept, e.log_id@);
    assert(log_ids(kept)[n] == e.log_id@);
    if i >= 0 && i < n {
        assert(log_ids(kept)[i] != e.log_id@);
    }
    assert(i == n);
    assert(kept.skip(i)[0] == kept[n]);
    assert forall|k: int| 0 <= k < ev.len() implies (#[trigger] ev[k]).snapshot_dir@
        != e.snapshot_dir@ by {
        assert(ev[k] == s[k]);
        assert(s[k] == log[k]);
        assert(log[k].snapshot_dir@ == snapshot_dir_of(log[k].log_id@));
        if ev[k].snapshot_dir@ == e.snapshot_dir@ {
            lemma_snapshot_dir_injective(log[k].log_id@, e.log_id@);
        }
    }
    lemma_remove_snapshots_keeps(snaps.insert(e.snapshot_dir@, live), ev, e.snapshot_dir@);
}

/// Rolling back to the checkpoint at position `i` leaves a log with none of the
/// checkpoints created at or after it, and deletes all their snapshot directories. This
/// holds where checkpoint ids are unique.
pub proof fn lemma_rollback_discards(
    log: Seq<OperationLogEntry>,
    i: int,
    snaps: Map<Seq<char>, Seq<BucketView>>,
)
    requires
        ids_unique(log),
        0 <= i < log.len(),
    ensures
        forall|j: int, k: int|
            0 <= j < log.take(i).len() && 0 <= k < log.skip(i).len() ==> (#[trigger] log.take(
                i,
            )[j]).log_id@ != (#[trigger] log.skip(i)[k]).log_id@,
        forall|k: int|
            0 <= k < log.skip(i).len() ==> !remove_snapshots(snaps, log.skip(i)).contains_key(
                (#[trigger] log.skip(i)[k]).snapshot_dir@,
            ),
{
    assert forall|j: int, k: int|
        0 <= j < log.take(i).len() && 0 <= k < log.skip(i).len() implies (#[trigger] log.take(
        i,
    )[j]).log_id@ != (#[trigger] log.skip(i)[k]).log_id@ by {
        assert(log.take(i)[j] == log[j]);
        assert(log.skip(i)[k] == log[i + k]);
    }
    assert forall|k: int| 0 <= k < log.skip(i).len() implies !remove_snapshots(
        snaps,
        log.skip(i),
    ).contains_key((#[trigger] log.skip(i)[k]).snapshot_dir@) by {
        lemma_remove_snapshots_gone(snaps, log.skip(i), k);
    }
}

} // verus!
