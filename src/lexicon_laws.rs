//! What holds of the lexicon across calls: an upserted entry is found exactly once,
//! and an entry that changes bucket leaves none behind.
use crate::lexicon::{
    all_entries, bucket_entries, bucket_names, cleared, count_id, delete_view, entries_in_place, drop_from_bucket, entry_ids,
    first_index, insert_by_head, lemma_first_index, moves_bucket, names_unique,
    put_into_bucket, replace_or_append, shard_of, sort_by_head, upsert_view, without_id,
    BucketView,
};
use crate::models::WordEntry;
use vstd::prelude::*;

verus! {

pub open spec fn has_id(e: WordEntry, id: Seq<char>) -> nat {
    if e.entry_id@ == id {
        1
    } else {
        0
    }
}

pub proof fn lemma_count_append(a: Seq<WordEntry>, b: Seq<WordEntry>, id: Seq<char>)
    ensures
        count_id(a + b, id) == count_id(a, id) + count_id(b, id),
    decreases b.len(),
{
    if b.len() > 0 {
        assert((a + b).drop_last() =~= a + b.drop_last());
        lemma_count_append(a, b.drop_last(), id);
    } else {
        assert(a + b =~= a);
    }
}

pub proof fn lemma_count_single(w: WordEntry, id: Seq<char>)
    ensures
        count_id(seq![w], id) == has_id(w, id),
{
    assert(seq![w].drop_last() =~= Seq::<WordEntry>::empty());
    assert(count_id(Seq::<WordEntry>::empty(), id) == 0);
}

pub proof fn lemma_count_zero(s: Seq<WordEntry>, id: Seq<char>)
    ensures
        count_id(s, id) == 0 <==> (forall|k: int| 0 <= k < s.len() ==> (#[trigger] s[k]).entry_id@ != id),
    decreases s.len(),
{
    if s.len() > 0 {
        let d = s.drop_last();
        lemma_count_zero(d, id);
        assert forall|k: int| 0 <= k < d.len() implies d[k] == s[k] by {}
    }
}

pub proof fn lemma_count_update(s: Seq<WordEntry>, i: int, w: WordEntry, id: Seq<char>)
    requires
        0 <= i < s.len(),
    ensures
        count_id(s.update(i, w), id) + has_id(s[i], id) == count_id(s, id) + has_id(w, id),
    decreases s.len(),
{
    if i == s.len() - 1 {
        assert(s.update(i, w).drop_last() =~= s.drop_last());
    } else {
        assert(s.update(i, w).drop_last() =~= s.drop_last().update(i, w));
        lemma_count_update(s.drop_last(), i, w, id);
    }
}

pub proof fn lemma_without_id(s: Seq<WordEntry>, id: Seq<char>)
    ensures
        count_id(without_id(s, id), id) == 0,
    decreases s.len(),
{
    if s.len() > 0 {
        lemma_without_id(s.drop_last(), id);
        let d = without_id(s.drop_last(), id);
        if s.last().entry_id@ != id {
            assert(d.push(s.last()).drop_last() =~= d);
        }
    }
}

pub proof fn lemma_insert_by_head(s: Seq<WordEntry>, x: WordEntry, id: Seq<char>)
    ensures
        count_id(insert_by_head(s, x), id) == count_id(s, id) + has_id(x, id),
        insert_by_head(s, x).contains(x),
        forall|y: WordEntry| s.contains(y) ==> insert_by_head(s, x).contains(y),
    decreases s.len(),
{
    let r = insert_by_head(s, x);
    if s.len() == 0 || crate::lexicon::head_le(s.last(), x) {
        assert(s.push(x).drop_last() =~= s);
        assert(r[s.len() as int] == x);
        assert forall|y: WordEntry| s.contains(y) implies r.contains(y) by {
            let k = choose|k: int| 0 <= k < s.len() && s[k] == y;
            assert(r[k] == y);
        }
    } else {
        let d = s.drop_last();
        lemma_insert_by_head(d, x, id);
        let t = insert_by_head(d, x);
        assert(t.push(s.last()).drop_last() =~= t);
        let j = choose|j: int| 0 <= j < t.len() && t[j] == x;
        assert(r[j] == x);
        assert forall|y: WordEntry| s.contains(y) implies r.contains(y) by {
            let k = choose|k: int| 0 <= k < s.len() && s[k] == y;
            if k == s.len() - 1 {
                assert(r[r.len() - 1] == y);
            } else {
                assert(d[k] == y);
                assert(d.contains(y));
                let m = choose|m: int| 0 <= m < t.len() && t[m] == y;
                assert(r[m] == y);
            }
        }
    }
}

pub proof fn lemma_sort_by_head(s: Seq<WordEntry>, id: Seq<char>)
    ensures
        count_id(sort_by_head(s), id) == count_id(s, id),
        forall|y: WordEntry| s.contains(y) ==> sort_by_head(s).contains(y),
    decreases s.len(),
{
    if s.len() > 0 {
        let d = s.drop_last();
        lemma_sort_by_head(d, id);
        lemma_insert_by_head(sort_by_head(d), s.last(), id);
        assert forall|y: WordEntry| s.contains(y) implies sort_by_head(s).contains(y) by {
            let k = choose|k: int| 0 <= k < s.len() && s[k] == y;
            if k < s.len() - 1 {
                assert(d[k] == y);
                assert(d.contains(y));
            }
        }
    }
}

pub proof fn lemma_replace_or_append(s: Seq<WordEntry>, w: WordEntry)
    requires
        count_id(s, w.entry_id@) <= 1,
    ensures
        count_id(replace_or_append(s, w), w.entry_id@) == 1,
        replace_or_append(s, w).contains(w),
{
    let id = w.entry_id@;
    lemma_first_index(entry_ids(s), id);
    let i = first_index(entry_ids(s), id);
    if i >= 0 {
        assert(entry_ids(s)[i] == s[i].entry_id@);
        lemma_count_zero(s, id);
        lemma_count_update(s, i, w, id);
        assert(s.update(i, w)[i] == w);
    } else {
        assert forall|k: int| 0 <= k < s.len() implies (#[trigger] s[k]).entry_id@ != id by {
            assert(entry_ids(s)[k] == s[k].entry_id@);
        }
        lemma_count_zero(s, id);
        assert(s.push(w).drop_last() =~= s);
        assert(s.push(w)[s.len() as int] == w);
    }
}

/// Putting `w` into a bucket with at most one entry of its id leaves exactly one, `w`.
pub proof fn lemma_put_entry(s: Seq<WordEntry>, w: WordEntry)
    requires
        count_id(s, w.entry_id@) <= 1,
    ensures
        count_id(sort_by_head(replace_or_append(s, w)), w.entry_id@) == 1,
        sort_by_head(replace_or_append(s, w)).contains(w),
{
    lemma_replace_or_append(s, w);
    lemma_sort_by_head(replace_or_append(s, w), w.entry_id@);
}

pub proof fn lemma_all_zero(bs: Seq<BucketView>, id: Seq<char>)
    requires
        forall|i: int| 0 <= i < bs.len() ==> count_id(#[trigger] bs[i].entries, id) == 0,
    ensures
        count_id(all_entries(bs), id) == 0,
    decreases bs.len(),
{
    if bs.len() > 0 {
        let d = bs.drop_last();
        assert forall|i: int| 0 <= i < d.len() implies count_id(#[trigger] d[i].entries, id) == 0 by {
            assert(d[i] == bs[i]);
        }
        lemma_all_zero(d, id);
        lemma_count_append(all_entries(d), bs.last().entries, id);
    }
}

pub proof fn lemma_all_single(bs: Seq<BucketView>, k: int, id: Seq<char>)
    requires
        0 <= k < bs.len(),
        forall|i: int| 0 <= i < bs.len() && i != k ==> count_id(#[trigger] bs[i].entries, id) == 0,
    ensures
        count_id(all_entries(bs), id) == count_id(bs[k].entries, id),
    decreases bs.len(),
{
    let d = bs.drop_last();
    assert forall|i: int| 0 <= i < d.len() && i != k implies count_id(#[trigger] d[i].entries, id)
        == 0 by {
        assert(d[i] == bs[i]);
    }
    lemma_count_append(all_entries(d), bs.last().entries, id);
    if k == bs.len() - 1 {
        lemma_all_zero(d, id);
    } else {
        assert(d[k] == bs[k]);
        lemma_all_single(d, k, id);
    }
}

pub proof fn lemma_bucket_below_all(bs: Seq<BucketView>, k: int, id: Seq<char>)
    requires
        0 <= k < bs.len(),
    ensures
        count_id(bs[k].entries, id) <= count_id(all_entries(bs), id),
    decreases bs.len(),
{
    let d = bs.drop_last();
    lemma_count_append(all_entries(d), bs.last().entries, id);
    if k < bs.len() - 1 {
        assert(d[k] == bs[k]);
        lemma_bucket_below_all(d, k, id);
    }
}

pub proof fn lemma_all_contains(bs: Seq<BucketView>, k: int, x: WordEntry)
    requires
        0 <= k < bs.len(),
        bs[k].entries.contains(x),
    ensures
        all_entries(bs).contains(x),
    decreases bs.len(),
{
    let d = bs.drop_last();
    let a = all_entries(d);
    let l = bs.last().entries;
    if k == bs.len() - 1 {
        let m = choose|m: int| 0 <= m < l.len() && l[m] == x;
        assert((a + l)[a.len() + m] == x);
    } else {
        assert(d[k] == bs[k]);
        lemma_all_contains(d, k, x);
        let m = choose|m: int| 0 <= m < a.len() && a[m] == x;
        assert((a + l)[m] == x);
    }
}

proof fn lemma_names_after_drop(bs: Seq<BucketView>, name: Seq<char>, id: Seq<char>)
    ensures
        drop_from_bucket(bs, name, id).len() == bs.len(),
        bucket_names(drop_from_bucket(bs, name, id)) == bucket_names(bs),
{
    let d = drop_from_bucket(bs, name, id);
    lemma_first_index(bucket_names(bs), name);
    assert forall|i: int| 0 <= i < d.len() implies #[trigger] d[i].name == bs[i].name by {}
    assert(bucket_names(d) =~= bucket_names(bs));
}

/// After the old bucket is cleared, only the bucket named after the new head-word can
/// hold the entry's id.
proof fn lemma_cleaned(bs: Seq<BucketView>, w: WordEntry, prev: Option<Seq<char>>)
    requires
        names_unique(bs),
        forall|j: int, k: int|
            0 <= j < bs.len() && 0 <= k < bs[j].entries.len() && (
            #[trigger] bs[j].entries[k]).entry_id@ == w.entry_id@ ==> bs[j].name == shard_of(
                w.con_word_romanized@,
            ) || (prev is Some && bs[j].name == shard_of(prev->0)),
    ensures
        cleared(bs, w, prev).len() == bs.len(),
        bucket_names(cleared(bs, w, prev)) == bucket_names(bs),
        forall|i: int|
            0 <= i < bs.len() && (#[trigger] cleared(bs, w, prev)[i]).name != shard_of(
                w.con_word_romanized@,
            ) ==> count_id(cleared(bs, w, prev)[i].entries, w.entry_id@) == 0,
        forall|i: int|
            0 <= i < bs.len() && (#[trigger] cleared(bs, w, prev)[i]).name == shard_of(
                w.con_word_romanized@,
            ) ==> cleared(bs, w, prev)[i] == bs[i],
{
    let id = w.entry_id@;
    let t = shard_of(w.con_word_romanized@);
    let moves = moves_bucket(w.con_word_romanized@, prev);
    let cleaned = cleared(bs, w, prev);
    if moves {
        lemma_names_after_drop(bs, shard_of(prev->0), id);
    }
    let names = bucket_names(bs);
    assert forall|i: int| 0 <= i < cleaned.len() && cleaned[i].name != t implies count_id(
        #[trigger] cleaned[i].entries,
        id,
    ) == 0 by {
        if moves {
            let p = shard_of(prev->0);
            lemma_first_index(names, p);
            let j = first_index(names, p);
            if i == j {
                lemma_first_index(entry_ids(bs[j].entries), id);
                if first_index(entry_ids(bs[j].entries), id) >= 0 {
                    lemma_without_id(bs[j].entries, id);
                } else {
                    assert forall|k: int| 0 <= k < bs[j].entries.len() implies (
                    #[trigger] bs[j].entries[k]).entry_id@ != id by {
                        assert(entry_ids(bs[j].entries)[k] == bs[j].entries[k].entry_id@);
                    }
                    lemma_count_zero(bs[j].entries, id);
                }
            } else {
                assert(cleaned[i] == bs[i]);
                assert forall|k: int| 0 <= k < bs[i].entries.len() implies (
                #[trigger] bs[i].entries[k]).entry_id@ != id by {
                    if bs[i].entries[k].entry_id@ == id {
                        assert(bs[i].name == p);
                        assert(names[i] == p);
                        if j >= 0 {
                            assert(names[j] == bs[j].name);
                        }
                    }
                }
                lemma_count_zero(bs[i].entries, id);
            }
        } else {
            assert forall|k: int| 0 <= k < bs[i].entries.len() implies (
            #[trigger] bs[i].entries[k]).entry_id@ != id by {
                if bs[i].entries[k].entry_id@ == id {
                    assert(bs[i].name == t);
                }
            }
            lemma_count_zero(bs[i].entries, id);
        }
    }
    assert forall|i: int| 0 <= i < cleaned.len() && cleaned[i].name == t implies #[trigger] cleaned[i]
        == bs[i] by {
        if moves {
            let p = shard_of(prev->0);
            let j = first_index(names, p);
            lemma_first_index(names, p);
            if i == j {
                assert(names[j] == bs[j].name);
                assert(cleaned[i].name == bs[i].name);
            }
        }
    }
}

/// An entry stored by `upsert` is afterwards among all entries exactly once, with the
/// values it was stored with. This holds where every entry lies in the one bucket of its
/// head-word and ids are unique, and the caller gives the previous head-word whenever
/// the entry sits in another bucket than that of its new head-word.
pub proof fn lemma_upsert_then_load(bs: Seq<BucketView>, w: WordEntry, prev: Option<Seq<char>>)
    requires
        names_unique(bs),
        count_id(all_entries(bs), w.entry_id@) <= 1,
        forall|j: int, k: int|
            0 <= j < bs.len() && 0 <= k < bs[j].entries.len() && (
            #[trigger] bs[j].entries[k]).entry_id@ == w.entry_id@ ==> bs[j].name == shard_of(
                w.con_word_romanized@,
            ) || (prev is Some && bs[j].name == shard_of(prev->0)),
    ensures
        count_id(all_entries(upsert_view(bs, w, prev)), w.entry_id@) == 1,
        all_entries(upsert_view(bs, w, prev)).contains(w),
{
    let id = w.entry_id@;
    let t = shard_of(w.con_word_romanized@);
    let cleaned = cleared(bs, w, prev);
    lemma_cleaned(bs, w, prev);
    let after = put_into_bucket(cleaned, t, w);
    let names = bucket_names(cleaned);
    lemma_first_index(names, t);
    let k = first_index(names, t);
    if k >= 0 {
        assert(names[k] == cleaned[k].name);
        assert(cleaned[k] == bs[k]);
        lemma_bucket_below_all(bs, k, id);
        lemma_put_entry(cleaned[k].entries, w);
        assert forall|i: int| 0 <= i < after.len() && i != k implies count_id(
            #[trigger] after[i].entries,
            id,
        ) == 0 by {
            assert(after[i] == cleaned[i]);
            if cleaned[i].name == t {
                assert(names[i] == t);
                assert(names[k] == t);
                assert(bs[i].name == bs[k].name);
            }
        }
        assert(after[k].entries == sort_by_head(replace_or_append(cleaned[k].entries, w)));
        assert(count_id(after[k].entries, id) == 1);
        lemma_all_single(after, k, id);
        assert(count_id(all_entries(after), id) == 1);
        lemma_all_contains(after, k, w);
    } else {
        assert forall|i: int| 0 <= i < cleaned.len() implies count_id(
            #[trigger] cleaned[i].entries,
            id,
        ) == 0 by {
            assert(names[i] == cleaned[i].name);
        }
        lemma_all_zero(cleaned, id);
        assert(after.drop_last() =~= cleaned);
        assert(after.last().entries == seq![w]);
        assert(seq![w].drop_last() =~= Seq::<WordEntry>::empty());
        lemma_count_append(all_entries(cleaned), seq![w], id);
        let a = all_entries(cleaned);
        assert((a + seq![w])[a.len() as int] == w);
        lemma_count_single(w, id);
        assert(all_entries(after) == a + seq![w]);
        assert(count_id(all_entries(after), id) == 1);
    }
}

proof fn lemma_first_index_push(keys: Seq<Seq<char>>, x: Seq<char>, k: Seq<char>)
    ensures
        first_index(keys.push(x), k) == if first_index(keys, k) >= 0 {
            first_index(keys, k)
        } else if x == k {
            keys.len() as int
        } else {
            -1
        },
{
    assert(keys.push(x).drop_last() =~= keys);
}

/// When an edit moves an entry to another bucket, `upsert` given the previous head-word
/// leaves no copy of its id in the old bucket and exactly one in the new. This holds
/// where ids are unique in the store.
pub proof fn lemma_upsert_moves_bucket(bs: Seq<BucketView>, w: WordEntry, prev: Seq<char>)
    requires
        shard_of(prev) != shard_of(w.con_word_romanized@),
        count_id(all_entries(bs), w.entry_id@) <= 1,
    ensures
        count_id(bucket_entries(upsert_view(bs, w, Some(prev)), shard_of(prev)), w.entry_id@)
            == 0,
        count_id(
            bucket_entries(upsert_view(bs, w, Some(prev)), shard_of(w.con_word_romanized@)),
            w.entry_id@,
        ) == 1,
{
    let id = w.entry_id@;
    let t = shard_of(w.con_word_romanized@);
    let p = shard_of(prev);
    let cleaned = drop_from_bucket(bs, p, id);
    lemma_names_after_drop(bs, p, id);
    let after = upsert_view(bs, w, Some(prev));
    let names = bucket_names(bs);
    lemma_first_index(names, p);
    lemma_first_index(names, t);
    let j = first_index(names, p);
    let k = first_index(names, t);
    if j >= 0 {
        assert(names[j] == bs[j].name);
        lemma_first_index(entry_ids(bs[j].entries), id);
        if first_index(entry_ids(bs[j].entries), id) >= 0 {
            lemma_without_id(bs[j].entries, id);
        } else {
            assert forall|m: int| 0 <= m < bs[j].entries.len() implies (
            #[trigger] bs[j].entries[m]).entry_id@ != id by {
                assert(entry_ids(bs[j].entries)[m] == bs[j].entries[m].entry_id@);
            }
            lemma_count_zero(bs[j].entries, id);
        }
    }
    if k >= 0 {
        assert(names[k] == bs[k].name);
        assert(cleaned[k] == bs[k]);
        lemma_bucket_below_all(bs, k, id);
        lemma_put_entry(bs[k].entries, w);
        assert(bucket_names(after) =~= names);
        if j >= 0 {
            assert(after[j] == cleaned[j]);
        }
    } else {
        assert(bucket_names(after) =~= names.push(t));
        lemma_first_index_push(names, t, p);
        lemma_first_index_push(names, t, t);
        assert(after[bs.len() as int].entries == seq![w]);
        lemma_count_single(w, id);
        if j >= 0 {
            assert(after[j] == cleaned[j]);
        }
    }
}

pub proof fn lemma_concat_contains(a: Seq<WordEntry>, b: Seq<WordEntry>, y: WordEntry)
    ensures
        (a + b).contains(y) <==> a.contains(y) || b.contains(y),
{
    if (a + b).contains(y) {
        let m = choose|m: int| 0 <= m < (a + b).len() && (a + b)[m] == y;
        if m < a.len() {
            assert(a[m] == y);
        } else {
            assert(b[m - a.len()] == y);
        }
    }
    if a.contains(y) {
        let m = choose|m: int| 0 <= m < a.len() && a[m] == y;
        assert((a + b)[m] == y);
    }
    if b.contains(y) {
        let m = choose|m: int| 0 <= m < b.len() && b[m] == y;
        assert((a + b)[a.len() + m] == y);
    }
}

/// An entry is among all entries exactly when some bucket holds it.
pub proof fn lemma_all_contains_iff(bs: Seq<BucketView>, y: WordEntry)
    ensures
        all_entries(bs).contains(y) <==> exists|i: int|
            0 <= i < bs.len() && (#[trigger] bs[i]).entries.contains(y),
    decreases bs.len(),
{
    if bs.len() > 0 {
        let d = bs.drop_last();
        lemma_all_contains_iff(d, y);
        lemma_concat_contains(all_entries(d), bs.last().entries, y);
        if all_entries(bs).contains(y) {
            if all_entries(d).contains(y) {
                let i = choose|i: int| 0 <= i < d.len() && (#[trigger] d[i]).entries.contains(y);
                assert(bs[i] == d[i]);
            } else {
                assert(bs[bs.len() - 1].entries.contains(y));
            }
        }
        if exists|i: int| 0 <= i < bs.len() && (#[trigger] bs[i]).entries.contains(y) {
            let i = choose|i: int| 0 <= i < bs.len() && (#[trigger] bs[i]).entries.contains(y);
            if i < bs.len() - 1 {
                assert(d[i] == bs[i]);
            }
        }
    }
}

pub proof fn lemma_insert_by_head_within(s: Seq<WordEntry>, x: WordEntry)
    ensures
        insert_by_head(s, x).len() == s.len() + 1,
        forall|y: WordEntry| insert_by_head(s, x).contains(y) ==> s.contains(y) || y == x,
    decreases s.len(),
{
    let r = insert_by_head(s, x);
    if s.len() == 0 || crate::lexicon::head_le(s.last(), x) {
        assert forall|y: WordEntry| r.contains(y) implies s.contains(y) || y == x by {
            let m = choose|m: int| 0 <= m < r.len() && r[m] == y;
            if m < s.len() {
                assert(s[m] == y);
            }
        }
    } else {
        let d = s.drop_last();
        lemma_insert_by_head_within(d, x);
        let t = insert_by_head(d, x);
        assert forall|y: WordEntry| r.contains(y) implies s.contains(y) || y == x by {
            let m = choose|m: int| 0 <= m < r.len() && r[m] == y;
            if m < t.len() {
                assert(t[m] == y);
                assert(t.contains(y));
                if d.contains(y) {
                    let q = choose|q: int| 0 <= q < d.len() && d[q] == y;
                    assert(s[q] == y);
                }
            } else {
                assert(s[s.len() - 1] == y);
            }
        }
    }
}

pub proof fn lemma_sort_by_head_within(s: Seq<WordEntry>)
    ensures
        sort_by_head(s).len() == s.len(),
        forall|y: WordEntry| sort_by_head(s).contains(y) ==> s.contains(y),
    decreases s.len(),
{
    if s.len() > 0 {
        let d = s.drop_last();
        lemma_sort_by_head_within(d);
        lemma_insert_by_head_within(sort_by_head(d), s.last());
        assert forall|y: WordEntry| sort_by_head(s).contains(y) implies s.contains(y) by {
            if y == s.last() {
                assert(s[s.len() - 1] == y);
            } else {
                assert(d.contains(y));
                let q = choose|q: int| 0 <= q < d.len() && d[q] == y;
                assert(s[q] == y);
            }
        }
    }
}

pub proof fn lemma_all_update(bs: Seq<BucketView>, k: int, b: BucketView, id: Seq<char>)
    requires
        0 <= k < bs.len(),
    ensures
        all_entries(bs.update(k, b)).len() + bs[k].entries.len() == all_entries(bs).len()
            + b.entries.len(),
        count_id(all_entries(bs.update(k, b)), id) + count_id(bs[k].entries, id) == count_id(
            all_entries(bs),
            id,
        ) + count_id(b.entries, id),
    decreases bs.len(),
{
    let u = bs.update(k, b);
    let d = bs.drop_last();
    if k == bs.len() - 1 {
        assert(u.drop_last() =~= d);
        lemma_count_append(all_entries(d), b.entries, id);
        lemma_count_append(all_entries(d), bs[k].entries, id);
    } else {
        assert(u.drop_last() =~= d.update(k, b));
        lemma_all_update(d, k, b, id);
        lemma_count_append(all_entries(d.update(k, b)), bs.last().entries, id);
        lemma_count_append(all_entries(d), bs.last().entries, id);
    }
}

/// An upsert, with no previous head-word, of an entry whose id the store does not hold
/// adds exactly that entry: one more entry in all, the others kept and counted as before.
pub proof fn lemma_upsert_fresh(bs: Seq<BucketView>, w: WordEntry)
    requires
        count_id(all_entries(bs), w.entry_id@) == 0,
    ensures
        all_entries(upsert_view(bs, w, None)).len() == all_entries(bs).len() + 1,
        count_id(all_entries(upsert_view(bs, w, None)), w.entry_id@) == 1,
        forall|x: Seq<char>|
            x != w.entry_id@ ==> count_id(all_entries(upsert_view(bs, w, None)), x) == count_id(
                all_entries(bs),
                x,
            ),
        forall|y: WordEntry|
            all_entries(upsert_view(bs, w, None)).contains(y) ==> all_entries(bs).contains(y)
                || y == w,
{
    let id = w.entry_id@;
    let t = shard_of(w.con_word_romanized@);
    let after = upsert_view(bs, w, None);
    assert(cleared(bs, w, None) == bs);
    let names = bucket_names(bs);
    lemma_first_index(names, t);
    let k = first_index(names, t);
    if k >= 0 {
        let s = bs[k].entries;
        lemma_bucket_below_all(bs, k, id);
        lemma_count_zero(s, id);
        lemma_first_index(entry_ids(s), id);
        if first_index(entry_ids(s), id) >= 0 {
            let m = first_index(entry_ids(s), id);
            assert(entry_ids(s)[m] == s[m].entry_id@);
        }
        assert(replace_or_append(s, w) == s.push(w));
        let ns = sort_by_head(s.push(w));
        let nb = BucketView { name: bs[k].name, entries: ns, skipped: 0 };
        assert(after == bs.update(k, nb));
        lemma_sort_by_head_within(s.push(w));
        assert(s.push(w).drop_last() =~= s);
        lemma_all_update(bs, k, nb, id);
        lemma_sort_by_head(s.push(w), id);
        assert forall|x: Seq<char>| x != id implies count_id(all_entries(after), x) == count_id(
            all_entries(bs),
            x,
        ) by {
            lemma_all_update(bs, k, nb, x);
            lemma_sort_by_head(s.push(w), x);
        }
        assert forall|y: WordEntry| all_entries(after).contains(y) implies all_entries(bs).contains(
            y,
        ) || y == w by {
            lemma_all_contains_iff(after, y);
            lemma_all_contains_iff(bs, y);
            let i = choose|i: int| 0 <= i < after.len() && (#[trigger] after[i]).entries.contains(y);
            if i == k {
                assert(ns.contains(y));
                if y != w {
                    assert(s.push(w).contains(y));
                    let q = choose|q: int| 0 <= q < s.len() + 1 && s.push(w)[q] == y;
                    assert(s[q] == y);
                    assert(bs[k].entries.contains(y));
                }
            } else {
                assert(after[i] == bs[i]);
            }
        }
    } else {
        let nb = BucketView { name: t, entries: seq![w], skipped: 0 };
        assert(after == bs.push(nb));
        assert(after.drop_last() =~= bs);
        lemma_count_single(w, id);
        lemma_count_append(all_entries(bs), seq![w], id);
        assert forall|x: Seq<char>| x != id implies count_id(all_entries(after), x) == count_id(
            all_entries(bs),
            x,
        ) by {
            lemma_count_single(w, x);
            lemma_count_append(all_entries(bs), seq![w], x);
        }
        assert forall|y: WordEntry| all_entries(after).contains(y) implies all_entries(bs).contains(
            y,
        ) || y == w by {
            lemma_concat_contains(all_entries(bs), seq![w], y);
            if seq![w].contains(y) {
                let q = choose|q: int| 0 <= q < 1 && seq![w][q] == y;
            }
        }
    }
}

pub proof fn lemma_without_id_within(s: Seq<WordEntry>, id: Seq<char>)
    ensures
        forall|y: WordEntry| without_id(s, id).contains(y) ==> s.contains(y),
    decreases s.len(),
{
    if s.len() > 0 {
        let d = s.drop_last();
        lemma_without_id_within(d, id);
        let t = without_id(d, id);
        assert forall|y: WordEntry| without_id(s, id).contains(y) implies s.contains(y) by {
            if y == s.last() {
                assert(s[s.len() - 1] == y);
            } else {
                if s.last().entry_id@ != id {
                    assert(without_id(s, id) == t.push(s.last()));
                    let m = choose|m: int|
                        0 <= m < t.push(s.last()).len() && t.push(s.last())[m] == y;
                    assert(m < t.len());
                    assert(t[m] == y);
                } else {
                    assert(without_id(s, id) == t);
                }
                assert(t.contains(y));
                assert(d.contains(y));
                let q = choose|q: int| 0 <= q < d.len() && d[q] == y;
                assert(s[q] == y);
            }
        }
    }
}

proof fn lemma_replace_or_append_within(s: Seq<WordEntry>, w: WordEntry)
    ensures
        forall|y: WordEntry| replace_or_append(s, w).contains(y) ==> s.contains(y) || y == w,
{
    let r = replace_or_append(s, w);
    lemma_first_index(entry_ids(s), w.entry_id@);
    assert forall|y: WordEntry| r.contains(y) implies s.contains(y) || y == w by {
        let m = choose|m: int| 0 <= m < r.len() && r[m] == y;
        if m < s.len() && r[m] != w {
            assert(s[m] == y);
        }
    }
}

/// Every entry of `s` has a head-word that maps to `name`.
pub open spec fn all_map_to(s: Seq<WordEntry>, name: Seq<char>) -> bool {
    forall|k: int| 0 <= k < s.len() ==> shard_of((#[trigger] s[k]).con_word_romanized@) == name
}

proof fn lemma_all_map_to_within(s: Seq<WordEntry>, t: Seq<WordEntry>, name: Seq<char>)
    requires
        all_map_to(s, name),
        forall|y: WordEntry| t.contains(y) ==> s.contains(y),
    ensures
        all_map_to(t, name),
{
    assert forall|k: int| 0 <= k < t.len() implies shard_of((#[trigger] t[k]).con_word_romanized@)
        == name by {
        assert(t.contains(t[k]));
        let q = choose|q: int| 0 <= q < s.len() && s[q] == t[k];
    }
}

/// An upsert keeps the store's shape: bucket names stay unique and every entry stays in
/// the bucket of its head-word.
pub proof fn lemma_upsert_keeps_shape(bs: Seq<BucketView>, w: WordEntry, prev: Option<Seq<char>>)
    requires
        names_unique(bs),
        entries_in_place(bs),
    ensures
        names_unique(upsert_view(bs, w, prev)),
        entries_in_place(upsert_view(bs, w, prev)),
{
    let id = w.entry_id@;
    let t = shard_of(w.con_word_romanized@);
    let c = cleared(bs, w, prev);
    if moves_bucket(w.con_word_romanized@, prev) {
        let p = shard_of(prev->0);
        lemma_first_index(bucket_names(bs), p);
        let j = first_index(bucket_names(bs), p);
        if j >= 0 && first_index(entry_ids(bs[j].entries), id) >= 0 {
            lemma_without_id_within(bs[j].entries, id);
            assert(all_map_to(bs[j].entries, bs[j].name));
            lemma_all_map_to_within(bs[j].entries, without_id(bs[j].entries, id), bs[j].name);
        }
    }
    assert(c.len() == bs.len());
    assert forall|i: int| 0 <= i < c.len() implies #[trigger] c[i].name == bs[i].name
        && all_map_to(c[i].entries, c[i].name) by {
        if c[i] == bs[i] {
            assert(all_map_to(bs[i].entries, bs[i].name));
        }
    }
    let after = upsert_view(bs, w, prev);
    let names = bucket_names(c);
    lemma_first_index(names, t);
    let k = first_index(names, t);
    if k >= 0 {
        assert(names[k] == c[k].name);
        let s = c[k].entries;
        lemma_replace_or_append_within(s, w);
        let r = replace_or_append(s, w);
        lemma_sort_by_head_within(r);
        assert(all_map_to(s, c[k].name));
        assert forall|m: int| 0 <= m < sort_by_head(r).len() implies shard_of(
            (#[trigger] sort_by_head(r)[m]).con_word_romanized@,
        ) == c[k].name by {
            let y = sort_by_head(r)[m];
            assert(sort_by_head(r).contains(y));
            assert(r.contains(y));
            assert(s.contains(y) || y == w);
            if y != w {
                let q = choose|q: int| 0 <= q < s.len() && s[q] == y;
                assert(shard_of(s[q].con_word_romanized@) == c[k].name);
            }
        }
        assert forall|i: int, m: int|
            0 <= i < after.len() && 0 <= m < after[i].entries.len() implies after[i].name == shard_of(
            (#[trigger] after[i].entries[m]).con_word_romanized@,
        ) by {
            if i != k {
                assert(after[i] == c[i]);
            }
        }
        assert forall|i: int, j: int| 0 <= i < j < after.len() implies after[i].name != after[j].name by {
            assert(after[i].name == bs[i].name);
            assert(after[j].name == bs[j].name);
        }
    } else {
        assert forall|i: int, m: int|
            0 <= i < after.len() && 0 <= m < after[i].entries.len() implies after[i].name == shard_of(
            (#[trigger] after[i].entries[m]).con_word_romanized@,
        ) by {
            if i < c.len() {
                assert(after[i] == c[i]);
            } else {
                assert(after[i].entries == seq![w]);
            }
        }
        assert forall|i: int, j: int| 0 <= i < j < after.len() implies after[i].name != after[j].name by {
            if j == c.len() {
                assert(names[i] == c[i].name);
            } else {
                assert(after[i].name == bs[i].name);
                assert(after[j].name == bs[j].name);
            }
        }
    }
}

/// A delete keeps the store's shape: bucket names stay unique and every entry stays in
/// the bucket of its head-word.
pub proof fn lemma_delete_keeps_shape(bs: Seq<BucketView>, id: Seq<char>, head: Seq<char>)
    requires
        names_unique(bs),
        entries_in_place(bs),
    ensures
        names_unique(delete_view(bs, id, head)),
        entries_in_place(delete_view(bs, id, head)),
{
    let after = delete_view(bs, id, head);
    lemma_first_index(bucket_names(bs), shard_of(head));
    let j = first_index(bucket_names(bs), shard_of(head));
    if j >= 0 {
        lemma_without_id_within(bs[j].entries, id);
        assert(all_map_to(bs[j].entries, bs[j].name));
        lemma_all_map_to_within(bs[j].entries, without_id(bs[j].entries, id), bs[j].name);
        assert forall|i: int, m: int|
            0 <= i < after.len() && 0 <= m < after[i].entries.len() implies after[i].name == shard_of(
            (#[trigger] after[i].entries[m]).con_word_romanized@,
        ) by {
            if i != j {
                assert(after[i] == bs[i]);
            }
        }
        assert forall|i: int, k: int| 0 <= i < k < after.len() implies after[i].name != after[k].name by {
            assert(after[i].name == bs[i].name);
            assert(after[k].name == bs[k].name);
        }
    }
}

} // verus!
