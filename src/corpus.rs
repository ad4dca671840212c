//! The index of a language's corpus texts: one entry per text, in order of corpus id.
use crate::models::{CorpusIndexEntry, CorpusText, CorpusTextMeta};
use crate::text::{chars_le, str_le};
use vstd::prelude::*;

verus! {

pub open spec fn id_le(a: CorpusIndexEntry, b: CorpusIndexEntry) -> bool {
    chars_le(a.corpus_id@, b.corpus_id@)
}

/// `x` placed into `s` after every entry, counted from the end, whose corpus id does
/// not come after its own.
pub open spec fn insert_by_id(s: Seq<CorpusIndexEntry>, x: CorpusIndexEntry) -> Seq<CorpusIndexEntry>
    decreases s.len(),
{
    if s.len() == 0 || id_le(s.last(), x) {
        s.push(x)
    } else {
        insert_by_id(s.drop_last(), x).push(s.last())
    }
}

/// The stable sort of `s` by corpus id.
pub open spec fn sort_by_corpus_id(s: Seq<CorpusIndexEntry>) -> Seq<CorpusIndexEntry>
    decreases s.len(),
{
    if s.len() == 0 {
        s
    } else {
        insert_by_id(sort_by_corpus_id(s.drop_last()), s.last())
    }
}

fn insert_sorted(v: &mut Vec<CorpusIndexEntry>, x: CorpusIndexEntry)
    ensures
        final(v)@ == insert_by_id(old(v)@, x),
{
    let ghost s = v@;
    let mut j = v.len();
    assert(s.take(j as int) =~= s);
    assert(s.skip(j as int) =~= Seq::<CorpusIndexEntry>::empty());
    while j > 0 && !str_le(v[j - 1].corpus_id.as_str(), x.corpus_id.as_str())
        invariant
            v@ == s,
            j <= v.len(),
            insert_by_id(s, x) == insert_by_id(s.take(j as int), x) + s.skip(j as int),
        decreases j,
    {
        proof {
            let t = s.take(j as int);
            assert(t.drop_last() =~= s.take(j - 1));
            assert(t.last() == s[j - 1]);
            assert(s.skip(j - 1) =~= seq![s[j - 1]] + s.skip(j as int));
            assert(insert_by_id(t, x) == insert_by_id(s.take(j - 1), x).push(s[j - 1]));
            assert(insert_by_id(s.take(j - 1), x).push(s[j - 1]) + s.skip(j as int)
                =~= insert_by_id(s.take(j - 1), x) + s.skip(j - 1));
        }
        j = j - 1;
    }
    proof {
        let t = s.take(j as int);
        assert(insert_by_id(t, x) == t.push(x));
    }
    v.insert(j, x);
    assert(v@ =~= insert_by_id(s, x));
}

/// The entries of `v` in the stable order of their corpus ids.
pub fn sort_index(v: Vec<CorpusIndexEntry>) -> (r: Vec<CorpusIndexEntry>)
    ensures
        r@ == sort_by_corpus_id(v@),
{
    let ghost s = v@;
    let mut v = v;
    let mut rev: Vec<CorpusIndexEntry> = Vec::new();
    while v.len() > 0
        invariant
            v@ == s.take(v.len() as int),
            v.len() + rev.len() == s.len(),
            forall|k: int| 0 <= k < rev.len() ==> #[trigger] rev@[k] == s[s.len() - 1 - k],
        decreases v.len(),
    {
        let x = v.pop().unwrap();
        rev.push(x);
        assert(v@ =~= s.take(v.len() as int));
    }
    let mut out: Vec<CorpusIndexEntry> = Vec::new();
    assert(s.take(0) =~= Seq::<CorpusIndexEntry>::empty());
    while rev.len() > 0
        invariant
            rev.len() <= s.len(),
            forall|k: int| 0 <= k < rev.len() ==> #[trigger] rev@[k] == s[s.len() - 1 - k],
            out@ == sort_by_corpus_id(s.take(s.len() - rev.len())),
        decreases rev.len(),
    {
        let x = rev.pop().unwrap();
        proof {
            let n = s.len() - rev.len() - 1;
            assert(x == s[n]);
            assert(s.take(n + 1).drop_last() =~= s.take(n));
        }
        insert_sorted(&mut out, x);
    }
    assert(s.take(s.len() as int) =~= s);
    out
}

pub open spec fn corpus_ids(s: Seq<CorpusIndexEntry>) -> Seq<Seq<char>> {
    s.map_values(|e: CorpusIndexEntry| e.corpus_id@)
}

/// `e` in place of the first entry with its corpus id, or appended when there is none.
pub open spec fn replace_or_append_entry(s: Seq<CorpusIndexEntry>, e: CorpusIndexEntry) -> Seq<
    CorpusIndexEntry,
> {
    let i = crate::lexicon::first_index(corpus_ids(s), e.corpus_id@);
    if i >= 0 {
        s.update(i, e)
    } else {
        s.push(e)
    }
}

/// The entries of `s` whose corpus id is not `id`, in order.
pub open spec fn without_corpus_id(s: Seq<CorpusIndexEntry>, id: Seq<char>) -> Seq<CorpusIndexEntry>
    decreases s.len(),
{
    if s.len() == 0 {
        s
    } else if s.last().corpus_id@ == id {
        without_corpus_id(s.drop_last(), id)
    } else {
        without_corpus_id(s.drop_last(), id).push(s.last())
    }
}

fn copy_strings(v: &Vec<String>) -> (r: Vec<String>)
    ensures
        r@.len() == v@.len(),
        forall|i: int| 0 <= i < v@.len() ==> (#[trigger] r@[i])@ == v@[i]@,
{
    let mut r: Vec<String> = Vec::new();
    let mut i: usize = 0;
    while i < v.len()
        invariant
            i <= v.len(),
            r@.len() == i,
            forall|k: int| 0 <= k < i ==> (#[trigger] r@[k])@ == v@[k]@,
        decreases v.len() - i,
    {
        r.push(v[i].clone());
        i = i + 1;
    }
    r
}

/// The index entry of a text: its id, title, description and metadata.
pub fn index_entry_of(text: &CorpusText) -> (r: CorpusIndexEntry)
    ensures
        r.corpus_id@ == text.corpus_id@,
        r.title@ == text.title@,
        r.description@ == text.description@,
        r.metadata.tags@.len() == text.metadata.tags@.len(),
        forall|i: int|
            0 <= i < text.metadata.tags@.len() ==> (#[trigger] r.metadata.tags@[i])@
                == text.metadata.tags@[i]@,
        r.metadata.created_at@ == text.metadata.created_at@,
        r.metadata.updated_at@ == text.metadata.updated_at@,
{
    CorpusIndexEntry {
        corpus_id: text.corpus_id.clone(),
        title: text.title.clone(),
        description: text.description.clone(),
        metadata: CorpusTextMeta {
            tags: copy_strings(&text.metadata.tags),
            created_at: text.metadata.created_at.clone(),
            updated_at: text.metadata.updated_at.clone(),
        },
    }
}

fn position_of_corpus_id(v: &Vec<CorpusIndexEntry>, id: &String) -> (r: Option<usize>)
    ensures
        crate::lexicon::first_index(corpus_ids(v@), id@) == match r {
            Some(i) => i as int,
            None => -1,
        },
        r is Some ==> r->0 < v@.len(),
{
    proof {
        crate::lexicon::lemma_first_index(corpus_ids(v@), id@);
    }
    let mut i: usize = 0;
    while i < v.len()
        invariant
            i <= v.len(),
            forall|k: int| 0 <= k < i ==> corpus_ids(v@)[k] != id@,
        decreases v.len() - i,
    {
        assert(corpus_ids(v@)[i as int] == v@[i as int].corpus_id@);
        if v[i].corpus_id == *id {
            proof {
                crate::lexicon::lemma_first_index(corpus_ids(v@), id@);
                let fi = crate::lexicon::first_index(corpus_ids(v@), id@);
                if fi >= 0 && fi < i {
                    assert(corpus_ids(v@)[fi] != id@);
                }
            }
            return Some(i);
        }
        i = i + 1;
    }
    None
}

/// The index with `entry` put in by corpus id, in corpus id order.
pub fn upsert_index(index: Vec<CorpusIndexEntry>, entry: CorpusIndexEntry) -> (r: Vec<
    CorpusIndexEntry,
>)
    ensures
        r@ == sort_by_corpus_id(replace_or_append_entry(index@, entry)),
{
    let ghost s = index@;
    let mut index = index;
    match position_of_corpus_id(&index, &entry.corpus_id) {
        Some(i) => {
            index.remove(i);
            index.insert(i, entry);
        },
        None => {
            index.push(entry);
        },
    }
    assert(index@ =~= replace_or_append_entry(s, entry));
    sort_index(index)
}

/// The index without the entries of corpus id `corpus_id`.
pub fn remove_from_index(index: Vec<CorpusIndexEntry>, corpus_id: &String) -> (r: Vec<
    CorpusIndexEntry,
>)
    ensures
        r@ == without_corpus_id(index@, corpus_id@),
{
    let ghost s = index@;
    let mut rev = crate::lexicon::reversed(index);
    let mut out: Vec<CorpusIndexEntry> = Vec::new();
    assert(s.take(0) =~= Seq::<CorpusIndexEntry>::empty());
    while rev.len() > 0
        invariant
            rev.len() <= s.len(),
            forall|k: int| 0 <= k < rev.len() ==> #[trigger] rev@[k] == s[s.len() - 1 - k],
            out@ == without_corpus_id(s.take(s.len() - rev.len()), corpus_id@),
        decreases rev.len(),
    {
        let x = rev.pop().unwrap();
        proof {
            let n = s.len() - rev.len() - 1;
            assert(x == s[n]);
            assert(s.take(n + 1).drop_last() =~= s.take(n));
        }
        if x.corpus_id != *corpus_id {
            out.push(x);
        }
    }
    assert(s.take(s.len() as int) =~= s);
    out
}

} // verus!
