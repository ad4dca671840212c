//! The lexicon: lexical entries sharded over bucket files by the first letter of
//! their head-word, each bucket kept sorted by head-word.
use crate::models::WordEntry;
use crate::text::{chars_le, chars_of, join_path, path_join, push_char, record_lines, str_le, text_records};
use vstd::prelude::*;

verus! {

/// The first character of the lowercase mapping of a character.
pub uninterp spec fn lowercase_lead(c: char) -> char;

/// Relies on `char::to_lowercase`: the first character of the lowercase mapping of `c`
/// (the mapping always yields at least one character).
#[verifier::external_body]
fn first_lowercase(c: char) -> (r: char)
    ensures
        r == lowercase_lead(c),
{
    c.to_lowercase().next().unwrap_or('_')
}

pub open spec fn is_ascii_letter(c: char) -> bool {
    ('a' <= c && c <= 'z') || ('A' <= c && c <= 'Z')
}

/// The character that decides the bucket of a head-word: its first character in
/// lowercase, or `_` for an empty head-word.
pub open spec fn shard_char(head: Seq<char>) -> char {
    if head.len() == 0 {
        '_'
    } else {
        lowercase_lead(head[0])
    }
}

/// The bucket file of a head-word: `lexicon_<letter>.ndjson` for an ASCII letter,
/// `lexicon_others.ndjson` for anything else.
pub open spec fn shard_of(head: Seq<char>) -> Seq<char> {
    if is_ascii_letter(shard_char(head)) {
        "lexicon_"@ + seq![shard_char(head)] + ".ndjson"@
    } else {
        "lexicon_others.ndjson"@
    }
}

/// The name of the bucket file that holds entries with head-word `head`.
pub fn shard_key(head: &str) -> (r: String)
    ensures
        r@ == shard_of(head@),
{
    let v = chars_of(head);
    let c = if v.len() == 0 {
        '_'
    } else {
        first_lowercase(v[0])
    };
    if ('a' <= c && c <= 'z') || ('A' <= c && c <= 'Z') {
        let mut r = String::from_str("lexicon_");
        push_char(&mut r, c);
        r.append(".ndjson");
        r
    } else {
        String::from_str("lexicon_others.ndjson")
    }
}

/// The path of the bucket file, inside `lexicon_dir`, for head-word `word`.
pub fn bucket_path(lexicon_dir: &str, word: &str) -> (r: String)
    ensures
        r@ == path_join(lexicon_dir@, shard_of(word@)),
{
    let name = shard_key(word);
    join_path(lexicon_dir, name.as_str())
}

// ── Order of a bucket ──────────────────────────────────────
pub open spec fn head_le(a: WordEntry, b: WordEntry) -> bool {
    chars_le(a.con_word_romanized@, b.con_word_romanized@)
}

/// `x` placed into `s` after every entry, counted from the end, whose head-word does
/// not come after its own.
pub open spec fn insert_by_head(s: Seq<WordEntry>, x: WordEntry) -> Seq<WordEntry>
    decreases s.len(),
{
    if s.len() == 0 || head_le(s.last(), x) {
        s.push(x)
    } else {
        insert_by_head(s.drop_last(), x).push(s.last())
    }
}

/// The stable sort of `s` by head-word.
pub open spec fn sort_by_head(s: Seq<WordEntry>) -> Seq<WordEntry>
    decreases s.len(),
{
    if s.len() == 0 {
        s
    } else {
        insert_by_head(sort_by_head(s.drop_last()), s.last())
    }
}

fn insert_sorted(v: &mut Vec<WordEntry>, x: WordEntry)
    ensures
        final(v)@ == insert_by_head(old(v)@, x),
{
    let ghost s = v@;
    let mut j = v.len();
    assert(s.take(j as int) =~= s);
    assert(s.skip(j as int) =~= Seq::<WordEntry>::empty());
    while j > 0 && !str_le(v[j - 1].con_word_romanized.as_str(), x.con_word_romanized.as_str())
        invariant
            v@ == s,
            j <= v.len(),
            insert_by_head(s, x) == insert_by_head(s.take(j as int), x) + s.skip(j as int),
        decreases j,
    {
        proof {
            let t = s.take(j as int);
            assert(t.drop_last() =~= s.take(j - 1));
            assert(t.last() == s[j - 1]);
            assert(s.skip(j - 1) =~= seq![s[j - 1]] + s.skip(j as int));
            assert(insert_by_head(t, x) == insert_by_head(s.take(j - 1), x).push(s[j - 1]));
            assert(insert_by_head(s.take(j - 1), x).push(s[j - 1]) + s.skip(j as int)
                =~= insert_by_head(s.take(j - 1), x) + s.skip(j - 1));
        }
        j = j - 1;
    }
    proof {
        let t = s.take(j as int);
        assert(insert_by_head(t, x) == t.push(x));
    }
    v.insert(j, x);
    assert(v@ =~= insert_by_head(s, x));
}

/// The entries of `v` in the stable order of their head-words.
pub fn sort_entries(v: Vec<WordEntry>) -> (r: Vec<WordEntry>)
    ensures
        r@ == sort_by_head(v@),
{
    let ghost s = v@;
    let mut v = v;
    let mut rev: Vec<WordEntry> = Vec::new();
    while v.len() > 0
        invariant
            v@ == s.take(v.len() as int),
            v.len() + rev.len() == s.len(),
            forall|k: int| 0 <= k < rev.len() ==> #[trigger] rev@[k] == s[s.len() - 1 - k],
        decreases v.len(),
    {
        let x = v.pop().unwrap();
        rev.push(x);
        assert(v@ =~= s.take(v.len() as int));
    }
    let mut out: Vec<WordEntry> = Vec::new();
    assert(s.take(0) =~= Seq::<WordEntry>::empty());
    while rev.len() > 0
        invariant
            rev.len() <= s.len(),
            forall|k: int| 0 <= k < rev.len() ==> #[trigger] rev@[k] == s[s.len() - 1 - k],
            out@ == sort_by_head(s.take(s.len() - rev.len())),
        decreases rev.len(),
    {
        let x = rev.pop().unwrap();
        proof {
            let n = s.len() - rev.len() - 1;
            assert(x == s[n]);
            assert(s.take(n + 1).drop_last() =~= s.take(n));
        }
        insert_sorted(&mut out, x);
    }
    assert(s.take(s.len() as int) =~= s);
    out
}

// ── Buckets and the store ──────────────────────────────────
/// The number of entries in `s` with id `id`.
pub open spec fn count_id(s: Seq<WordEntry>, id: Seq<char>) -> nat
    decreases s.len(),
{
    if s.len() == 0 {
        0
    } else {
        count_id(s.drop_last(), id) + if s.last().entry_id@ == id {
            1nat
        } else {
            0nat
        }
    }
}

/// The entries of `s` whose id is not `id`, in order.
pub open spec fn without_id(s: Seq<WordEntry>, id: Seq<char>) -> Seq<WordEntry>
    decreases s.len(),
{
    if s.len() == 0 {
        s
    } else if s.last().entry_id@ == id {
        without_id(s.drop_last(), id)
    } else {
        without_id(s.drop_last(), id).push(s.last())
    }
}

/// The index of the first of `keys` equal to `k`, or -1.
pub open spec fn first_index(keys: Seq<Seq<char>>, k: Seq<char>) -> int
    decreases keys.len(),
{
    if keys.len() == 0 {
        -1
    } else if first_index(keys.drop_last(), k) >= 0 {
        first_index(keys.drop_last(), k)
    } else if keys.last() == k {
        keys.len() - 1
    } else {
        -1
    }
}

pub open spec fn entry_ids(s: Seq<WordEntry>) -> Seq<Seq<char>> {
    s.map_values(|e: WordEntry| e.entry_id@)
}

/// `w` in place of the first entry with its id, or appended when there is none.
pub open spec fn replace_or_append(s: Seq<WordEntry>, w: WordEntry) -> Seq<WordEntry> {
    if first_index(entry_ids(s), w.entry_id@) >= 0 {
        s.update(first_index(entry_ids(s), w.entry_id@), w)
    } else {
        s.push(w)
    }
}

/// What a bucket file holds: the entries read from its lines, and the number of lines
/// that could not be read as an entry.
pub struct BucketView {
    pub name: Seq<char>,
    pub entries: Seq<WordEntry>,
    pub skipped: nat,
}

/// One bucket file: its name, its entries in file order, and how many of its lines
/// could not be read as an entry.
pub struct Bucket {
    pub name: String,
    pub entries: Vec<WordEntry>,
    pub skipped: usize,
}

impl View for Bucket {
    type V = BucketView;

    open spec fn view(&self) -> BucketView {
        BucketView { name: self.name@, entries: self.entries@, skipped: self.skipped as nat }
    }
}

impl Bucket {
    /// A bucket from the outcome of reading each of its lines: the entries that were
    /// read, in order, and the number of lines that were not.
    pub fn from_lines(name: String, lines: Vec<Option<WordEntry>>) -> (r: Bucket)
        ensures
            r.name@ == name@,
            r.entries@ == parsed(lines@),
            r.skipped as nat == lines@.len() - parsed(lines@).len(),
    {
        let ghost s = lines@;
        let mut lines = lines;
        let mut rev: Vec<Option<WordEntry>> = Vec::new();
        while lines.len() > 0
            invariant
                lines@ == s.take(lines.len() as int),
                lines.len() + rev.len() == s.len(),
                forall|k: int| 0 <= k < rev.len() ==> #[trigger] rev@[k] == s[s.len() - 1 - k],
            decreases lines.len(),
        {
            let x = lines.pop().unwrap();
            rev.push(x);
            assert(lines@ =~= s.take(lines.len() as int));
        }
        let mut entries: Vec<WordEntry> = Vec::new();
        let mut skipped: usize = 0;
        assert(s.take(0) =~= Seq::<Option<WordEntry>>::empty());
        while rev.len() > 0
            invariant
                rev.len() <= s.len() <= usize::MAX,
                forall|k: int| 0 <= k < rev.len() ==> #[trigger] rev@[k] == s[s.len() - 1 - k],
                entries@ == parsed(s.take(s.len() - rev.len())),
                skipped + entries.len() == s.len() - rev.len(),
            decreases rev.len(),
        {
            let x = rev.pop().unwrap();
            proof {
                let n = s.len() - rev.len() - 1;
                assert(x == s[n]);
                assert(s.take(n + 1).drop_last() =~= s.take(n));
            }
            match x {
                Some(e) => {
                    entries.push(e);
                },
                None => {
                    skipped = skipped + 1;
                },
            }
        }
        assert(s.take(s.len() as int) =~= s);
        Bucket { name, entries, skipped }
    }
}

/// The entries among the outcomes of reading lines, in order.
pub open spec fn parsed(lines: Seq<Option<WordEntry>>) -> Seq<WordEntry>
    decreases lines.len(),
{
    if lines.len() == 0 {
        Seq::empty()
    } else {
        match lines.last() {
            Some(e) => parsed(lines.drop_last()).push(e),
            None => parsed(lines.drop_last()),
        }
    }
}

pub open spec fn bucket_names(bs: Seq<BucketView>) -> Seq<Seq<char>> {
    bs.map_values(|b: BucketView| b.name)
}

/// Every entry of the store: the entries of each bucket, bucket after bucket.
pub open spec fn all_entries(bs: Seq<BucketView>) -> Seq<WordEntry>
    decreases bs.len(),
{
    if bs.len() == 0 {
        Seq::empty()
    } else {
        all_entries(bs.drop_last()) + bs.last().entries
    }
}

/// The entries of the bucket named `name`, or none when there is no such bucket.
pub open spec fn bucket_entries(bs: Seq<BucketView>, name: Seq<char>) -> Seq<WordEntry> {
    if first_index(bucket_names(bs), name) >= 0 {
        bs[first_index(bucket_names(bs), name)].entries
    } else {
        Seq::empty()
    }
}

/// No two buckets have one name, as no two files of a directory do.
pub open spec fn names_unique(bs: Seq<BucketView>) -> bool {
    forall|i: int, j: int| 0 <= i < j < bs.len() ==> bs[i].name != bs[j].name
}

/// Every entry lies in the bucket that its head-word maps to.
pub open spec fn entries_in_place(bs: Seq<BucketView>) -> bool {
    forall|i: int, k: int|
        0 <= i < bs.len() && 0 <= k < bs[i].entries.len() ==> bs[i].name == shard_of(
            #[trigger] bs[i].entries[k].con_word_romanized@,
        )
}

/// The bucket named `name` rewritten without the entries with id `id`, where it holds
/// one; the store as it is otherwise.
pub open spec fn drop_from_bucket(bs: Seq<BucketView>, name: Seq<char>, id: Seq<char>) -> Seq<
    BucketView,
> {
    let j = first_index(bucket_names(bs), name);
    if j >= 0 && first_index(entry_ids(bs[j].entries), id) >= 0 {
        bs.update(j, BucketView { name: bs[j].name, entries: without_id(bs[j].entries, id), skipped: 0 })
    } else {
        bs
    }
}

/// `w` put into the bucket named `name` by id, the bucket rewritten in head-word order;
/// a new bucket of `w` alone where there is no such bucket.
pub open spec fn put_into_bucket(bs: Seq<BucketView>, name: Seq<char>, w: WordEntry) -> Seq<
    BucketView,
> {
    let k = first_index(bucket_names(bs), name);
    if k >= 0 {
        bs.update(
            k,
            BucketView {
                name: bs[k].name,
                entries: sort_by_head(replace_or_append(bs[k].entries, w)),
                skipped: 0,
            },
        )
    } else {
        bs.push(BucketView { name, entries: seq![w], skipped: 0 })
    }
}

pub open spec fn opt_view(o: Option<String>) -> Option<Seq<char>> {
    match o {
        Some(p) => Some(p@),
        None => None,
    }
}

/// Whether an upsert of an entry with head-word `head` given the previous head-word
/// `prev` first clears the entry out of another bucket.
pub open spec fn moves_bucket(head: Seq<char>, prev: Option<Seq<char>>) -> bool {
    prev is Some && shard_of(prev->0) != shard_of(head)
}

/// The store after an upsert of `w`, given the head-word it had before, if any.
pub open spec fn upsert_view(bs: Seq<BucketView>, w: WordEntry, prev: Option<Seq<char>>) -> Seq<
    BucketView,
> {
    put_into_bucket(cleared(bs, w, prev), shard_of(w.con_word_romanized@), w)
}

/// The store after the first step of an upsert of `w`: the entry cleared out of the
/// bucket of its previous head-word, where that is another bucket.
pub open spec fn cleared(bs: Seq<BucketView>, w: WordEntry, prev: Option<Seq<char>>) -> Seq<
    BucketView,
> {
    if moves_bucket(w.con_word_romanized@, prev) {
        drop_from_bucket(bs, shard_of(prev->0), w.entry_id@)
    } else {
        bs
    }
}

/// Whether an upsert of `w` takes it out of the bucket of its previous head-word.
pub open spec fn clears_old_bucket(bs: Seq<BucketView>, w: WordEntry, prev: Option<Seq<char>>) -> bool {
    let j = first_index(bucket_names(bs), shard_of(prev->0));
    moves_bucket(w.con_word_romanized@, prev) && j >= 0 && first_index(
        entry_ids(bs[j].entries),
        w.entry_id@,
    ) >= 0
}

/// The buckets an upsert rewrites: the old bucket when the entry left it, then the
/// bucket of its head-word.
pub open spec fn upsert_rewrites(bs: Seq<BucketView>, w: WordEntry, prev: Option<Seq<char>>) -> Seq<
    Seq<char>,
> {
    if clears_old_bucket(bs, w, prev) {
        seq![shard_of(prev->0), shard_of(w.con_word_romanized@)]
    } else {
        seq![shard_of(w.con_word_romanized@)]
    }
}

/// The store after the entry with id `id` and head-word `head` is deleted: its bucket
/// rewritten without it, where there is such a bucket.
pub open spec fn delete_view(bs: Seq<BucketView>, id: Seq<char>, head: Seq<char>) -> Seq<
    BucketView,
> {
    let j = first_index(bucket_names(bs), shard_of(head));
    if j >= 0 {
        bs.update(j, BucketView { name: bs[j].name, entries: without_id(bs[j].entries, id), skipped: 0 })
    } else {
        bs
    }
}

/// Entry count and directory times of one language.
pub struct LanguageStats {
    pub word_count: usize,
    pub created_at: Option<u64>,
    pub updated_at: Option<u64>,
}

/// The number of records in the text of a bucket file: its lines that are not blank.
pub fn record_count(content: &str) -> (r: usize)
    ensures
        r == record_lines(content@).len(),
{
    let lines = text_records(content);
    assert(crate::text::views(lines@).len() == lines@.len());
    lines.len()
}

/// The lexicon of one language: its bucket files, in directory order.
pub struct Lexicon {
    pub buckets: Vec<Bucket>,
}

impl View for Lexicon {
    type V = Seq<BucketView>;

    open spec fn view(&self) -> Seq<BucketView> {
        self.buckets@.map_values(|b: Bucket| b@)
    }
}

/// `first_index` is the first position that holds `k`, or -1 when none does.
pub proof fn lemma_first_index(keys: Seq<Seq<char>>, k: Seq<char>)
    ensures
        -1 <= first_index(keys, k) < keys.len(),
        first_index(keys, k) == -1 <==> (forall|i: int| 0 <= i < keys.len() ==> keys[i] != k),
        first_index(keys, k) >= 0 ==> keys[first_index(keys, k)] == k && (forall|i: int|
            0 <= i < first_index(keys, k) ==> keys[i] != k),
    decreases keys.len(),
{
    if keys.len() > 0 {
        let d = keys.drop_last();
        lemma_first_index(d, k);
        assert forall|i: int| 0 <= i < d.len() implies d[i] == keys[i] by {}
    }
}

/// The elements of `v` in reverse order.
pub(crate) fn reversed<T>(v: Vec<T>) -> (r: Vec<T>)
    ensures
        r.len() == v.len(),
        forall|k: int| 0 <= k < r.len() ==> #[trigger] r@[k] == v@[v.len() - 1 - k],
{
    let ghost s = v@;
    let mut v = v;
    let mut rev: Vec<T> = Vec::new();
    while v.len() > 0
        invariant
            v@ == s.take(v.len() as int),
            v.len() + rev.len() == s.len(),
            forall|k: int| 0 <= k < rev.len() ==> #[trigger] rev@[k] == s[s.len() - 1 - k],
        decreases v.len(),
    {
        let x = v.pop().unwrap();
        rev.push(x);
        assert(v@ =~= s.take(v.len() as int));
    }
    rev
}

/// The position of the first entry of `v` with id `id`.
pub fn position_of_id(v: &Vec<WordEntry>, id: &String) -> (r: Option<usize>)
    ensures
        first_index(entry_ids(v@), id@) == match r {
            Some(i) => i as int,
            None => -1,
        },
        r is Some ==> r->0 < v@.len(),
{
    proof {
        lemma_first_index(entry_ids(v@), id@);
    }
    let mut i: usize = 0;
    while i < v.len()
        invariant
            i <= v.len(),
            forall|k: int| 0 <= k < i ==> entry_ids(v@)[k] != id@,
        decreases v.len() - i,
    {
        if v[i].entry_id == *id {
            proof {
                let fi = first_index(entry_ids(v@), id@);
                lemma_first_index(entry_ids(v@), id@);
                assert(entry_ids(v@)[i as int] == id@);
                if fi >= 0 && fi < i {
                    assert(entry_ids(v@)[fi] != id@);
                }
            }
            return Some(i);
        }
        assert(entry_ids(v@)[i as int] == v@[i as int].entry_id@);
        i = i + 1;
    }
    None
}

/// The entries of `v` whose id is not `id`, in order.
pub fn remove_id(v: Vec<WordEntry>, id: &String) -> (r: Vec<WordEntry>)
    ensures
        r@ == without_id(v@, id@),
{
    let ghost s = v@;
    let mut rev = reversed(v);
    let mut out: Vec<WordEntry> = Vec::new();
    assert(s.take(0) =~= Seq::<WordEntry>::empty());
    while rev.len() > 0
        invariant
            rev.len() <= s.len(),
            forall|k: int| 0 <= k < rev.len() ==> #[trigger] rev@[k] == s[s.len() - 1 - k],
            out@ == without_id(s.take(s.len() - rev.len()), id@),
        decreases rev.len(),
    {
        let x = rev.pop().unwrap();
        proof {
            let n = s.len() - rev.len() - 1;
            assert(x == s[n]);
            assert(s.take(n + 1).drop_last() =~= s.take(n));
        }
        if x.entry_id != *id {
            out.push(x);
        }
    }
    assert(s.take(s.len() as int) =~= s);
    out
}

impl Lexicon {
    /// The shape of a lexicon at rest: no two buckets share a name, and every entry lies
    /// in the bucket of its head-word.
    pub open spec fn well_formed(&self) -> bool {
        names_unique(self@) && entries_in_place(self@)
    }

    /// A lexicon with no bucket.
    pub fn new() -> (r: Lexicon)
        ensures
            r@ == Seq::<BucketView>::empty(),
            r.well_formed(),
    {
        let r = Lexicon { buckets: Vec::new() };
        assert(r@ =~= Seq::<BucketView>::empty());
        r
    }

    /// Adds a bucket after the others.
    pub fn add_bucket(&mut self, bucket: Bucket)
        ensures
            final(self)@ == old(self)@.push(bucket@),
    {
        self.buckets.push(bucket);
        assert(self@ =~= old(self)@.push(bucket@));
    }

    /// The position of the first bucket named `name`.
    pub fn find_bucket(&self, name: &String) -> (r: Option<usize>)
        ensures
            first_index(bucket_names(self@), name@) == match r {
                Some(i) => i as int,
                None => -1,
            },
            r is Some ==> r->0 < self@.len(),
    {
        proof {
            lemma_first_index(bucket_names(self@), name@);
        }
        let mut i: usize = 0;
        while i < self.buckets.len()
            invariant
                i <= self.buckets.len(),
                forall|k: int| 0 <= k < i ==> bucket_names(self@)[k] != name@,
            decreases self.buckets.len() - i,
        {
            assert(bucket_names(self@)[i as int] == self.buckets@[i as int].name@);
            if self.buckets[i].name == *name {
                proof {
                    let fi = first_index(bucket_names(self@), name@);
                    lemma_first_index(bucket_names(self@), name@);
                    assert(bucket_names(self@)[i as int] == name@);
                    if fi >= 0 && fi < i {
                        assert(bucket_names(self@)[fi] != name@);
                    }
                }
                return Some(i);
            }
            i = i + 1;
        }
        None
    }

    fn replace_bucket(&mut self, j: usize, entries: Vec<WordEntry>)
        requires
            j < old(self)@.len(),
        ensures
            final(self)@ == old(self)@.update(
                j as int,
                BucketView { name: old(self)@[j as int].name, entries: entries@, skipped: 0 },
            ),
    {
        let b = self.buckets.remove(j);
        self.buckets.insert(j, Bucket { name: b.name, entries, skipped: 0 });
        assert(self@ =~= old(self)@.update(
            j as int,
            BucketView { name: old(self)@[j as int].name, entries: entries@, skipped: 0 },
        ));
    }

    fn take_entries(&mut self, j: usize) -> (r: Vec<WordEntry>)
        requires
            j < old(self)@.len(),
        ensures
            r@ == old(self)@[j as int].entries,
            final(self)@.len() == old(self)@.len(),
            final(self)@[j as int].name == old(self)@[j as int].name,
            forall|i: int| 0 <= i < old(self)@.len() && i != j ==> final(self)@[i] == old(self)@[i],
    {
        let b = self.buckets.remove(j);
        self.buckets.insert(j, Bucket { name: b.name, entries: Vec::new(), skipped: b.skipped });
        assert(self.buckets@ =~= old(self).buckets@.update(j as int, self.buckets@[j as int]));
        b.entries
    }

    /// Stores `word`: clears it out of the bucket of `previous_head_word` when that is
    /// another bucket than its own, then puts it into its own bucket by id and rewrites
    /// that bucket in head-word order. Returns the names of the buckets rewritten.
    pub fn upsert(&mut self, word: WordEntry, previous_head_word: Option<String>) -> (r: Vec<
        String,
    >)
        ensures
            final(self)@ == upsert_view(
                old(self)@,
                word,
                opt_view(previous_head_word),
            ),
            r@.map_values(|n: String| n@) == upsert_rewrites(
                old(self)@,
                word,
                opt_view(previous_head_word),
            ),
            old(self).well_formed() ==> final(self).well_formed(),
    {
        proof {
            if self.well_formed() {
                crate::lexicon_laws::lemma_upsert_keeps_shape(
                    self@,
                    word,
                    opt_view(previous_head_word),
                );
            }
        }
        let ghost prev = opt_view(previous_head_word);
        let ghost start = self@;
        let target = shard_key(word.con_word_romanized.as_str());
        let mut rewritten: Vec<String> = Vec::new();
        let mut moved_out = false;
        if let Some(p) = previous_head_word {
            let old_name = shard_key(p.as_str());
            if old_name != target {
                if let Some(j) = self.find_bucket(&old_name) {
                    let found = position_of_id(&self.buckets[j].entries, &word.entry_id);
                    if found.is_some() {
                        let entries = self.take_entries(j);
                        let kept = remove_id(entries, &word.entry_id);
                        proof {
                            assert(self@[j as int].name == start[j as int].name);
                        }
                        self.replace_bucket_named(j, kept, Ghost(start));
                        rewritten.push(old_name);
                        moved_out = true;
                    }
                }
            }
        }
        assert(moved_out == clears_old_bucket(start, word, prev));
        assert(self@ == cleared(start, word, prev));
        let ghost cleaned = self@;
        match self.find_bucket(&target) {
            Some(k) => {
                let mut entries = self.take_entries(k);
                match position_of_id(&entries, &word.entry_id) {
                    Some(i) => {
                        entries.remove(i);
                        entries.insert(i, word);
                    },
                    None => {
                        entries.push(word);
                    },
                }
                assert(entries@ =~= replace_or_append(cleaned[k as int].entries, word));
                let sorted = sort_entries(entries);
                self.replace_bucket_named(k, sorted, Ghost(cleaned));
            },
            None => {
                let name = target.clone();
                let mut entries: Vec<WordEntry> = Vec::new();
                entries.push(word);
                assert(entries@ =~= seq![word]);
                self.add_bucket(Bucket { name, entries, skipped: 0 });
            },
        }
        rewritten.push(target);
        assert(rewritten@.map_values(|n: String| n@) =~= upsert_rewrites(start, word, prev));
        rewritten
    }

    /// Deletes the entry with id `entry_id` from the bucket of `head_word`, rewriting
    /// that bucket; does nothing where there is no such bucket. Returns the name of the
    /// bucket rewritten.
    pub fn delete(&mut self, entry_id: &String, head_word: &str) -> (r: Option<String>)
        ensures
            final(self)@ == delete_view(old(self)@, entry_id@, head_word@),
            r is Some <==> first_index(bucket_names(old(self)@), shard_of(head_word@)) >= 0,
            r is Some ==> r->0@ == shard_of(head_word@),
            old(self).well_formed() ==> final(self).well_formed(),
    {
        proof {
            if self.well_formed() {
                crate::lexicon_laws::lemma_delete_keeps_shape(self@, entry_id@, head_word@);
            }
        }
        let ghost start = self@;
        let name = shard_key(head_word);
        match self.find_bucket(&name) {
            Some(j) => {
                let entries = self.take_entries(j);
                let kept = remove_id(entries, entry_id);
                self.replace_bucket_named(j, kept, Ghost(start));
                Some(name)
            },
            None => None,
        }
    }

    /// Every entry of the lexicon, bucket after bucket.
    pub fn load_all(self) -> (r: Vec<WordEntry>)
        ensures
            r@ == all_entries(self@),
    {
        let ghost bs = self@;
        let mut rev = reversed(self.buckets);
        let mut out: Vec<WordEntry> = Vec::new();
        assert(bs.take(0) =~= Seq::<BucketView>::empty());
        while rev.len() > 0
            invariant
                rev.len() <= bs.len(),
                forall|k: int| 0 <= k < rev.len() ==> (#[trigger] rev@[k])@ == bs[bs.len() - 1 - k],
                out@ == all_entries(bs.take(bs.len() - rev.len())),
            decreases rev.len(),
        {
            let mut b = rev.pop().unwrap();
            proof {
                let n = bs.len() - rev.len() - 1;
                assert(b@ == bs[n]);
                assert(bs.take(n + 1).drop_last() =~= bs.take(n));
            }
            out.append(&mut b.entries);
        }
        assert(bs.take(bs.len() as int) =~= bs);
        out
    }

    fn replace_bucket_named(&mut self, j: usize, entries: Vec<WordEntry>, orig: Ghost<Seq<BucketView>>)
        requires
            j < old(self)@.len(),
            old(self)@.len() == orig@.len(),
            forall|i: int| 0 <= i < orig@.len() && i != j ==> old(self)@[i] == orig@[i],
            old(self)@[j as int].name == orig@[j as int].name,
        ensures
            final(self)@ == orig@.update(
                j as int,
                BucketView { name: orig@[j as int].name, entries: entries@, skipped: 0 },
            ),
    {
        self.replace_bucket(j, entries);
        assert(self@ =~= orig@.update(
            j as int,
            BucketView { name: orig@[j as int].name, entries: entries@, skipped: 0 },
        ));
    }
}

} // verus!