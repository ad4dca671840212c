//! Forking a language: the child's lexicon is the parent's, each entry under a fresh
//! id, moved to the child language and marked as evolved from its parent entry.
use crate::lexicon::{all_entries, count_id, opt_view, reversed, Lexicon};
use crate::lexicon_laws::{lemma_count_zero, lemma_upsert_fresh};
use crate::models::{Etymology, WordEntry};
use crate::text::{decimal, lemma_decimal_injective, push_decimal};
use vstd::prelude::*;

verus! {

/// The id `entry_<millis>_<seq>`.
pub open spec fn entry_id_text(millis: nat, seq: nat) -> Seq<char> {
    "entry_"@ + decimal(millis) + "_"@ + decimal(seq)
}

/// The entry id made of a clock reading in milliseconds and a sequence number.
pub fn generate_entry_id(millis: u64, seq: u64) -> (r: String)
    ensures
        r@ == entry_id_text(millis as nat, seq as nat),
{
    let mut r = String::from_str("entry_");
    push_decimal(&mut r, millis);
    r.append("_");
    push_decimal(&mut r, seq);
    r
}

/// Hands out entry ids from one clock reading and a running sequence number.
pub struct EntryIdGenerator {
    pub millis: u64,
    pub next_seq: u64,
}

impl EntryIdGenerator {
    pub fn new(millis: u64, first_seq: u64) -> (r: EntryIdGenerator)
        ensures
            r.millis == millis,
            r.next_seq == first_seq,
    {
        EntryIdGenerator { millis, next_seq: first_seq }
    }

    /// The next id; the sequence number moves on by one.
    pub fn next_id(&mut self) -> (r: String)
        requires
            old(self).next_seq < u64::MAX,
        ensures
            r@ == entry_id_text(old(self).millis as nat, old(self).next_seq as nat),
            final(self).millis == old(self).millis,
            final(self).next_seq == old(self).next_seq + 1,
    {
        let r = generate_entry_id(self.millis, self.next_seq);
        self.next_seq = self.next_seq + 1;
        r
    }
}

pub open spec fn evolved_text() -> Seq<char> {
    "evolved"@
}

/// `c` is `p` carried into language `lang` under id `id`, marked as evolved from `p`
/// of language `parent_lang`; everything else is kept.
pub open spec fn evolved_from(
    c: WordEntry,
    p: WordEntry,
    id: Seq<char>,
    lang: Seq<char>,
    parent_lang: Seq<char>,
) -> bool {
    &&& c.entry_id@ == id
    &&& c.language_id@ == lang
    &&& c.con_word_romanized == p.con_word_romanized
    &&& c.phonetic_ipa == p.phonetic_ipa
    &&& c.phonetic_override == p.phonetic_override
    &&& c.senses == p.senses
    &&& c.metadata == p.metadata
    &&& c.etymology.origin_type@ == evolved_text()
    &&& c.etymology.parent_entry_id is Some
    &&& c.etymology.parent_entry_id->0@ == p.entry_id@
    &&& c.etymology.source_language_id is Some
    &&& c.etymology.source_language_id->0@ == parent_lang
    &&& c.etymology.applied_sound_changes == p.etymology.applied_sound_changes
    &&& c.etymology.semantic_shift_note == p.etymology.semantic_shift_note
}

/// The child's copy of parent entry `p`.
pub fn evolve_entry(p: WordEntry, id: String, lang: &String, parent_lang: &String) -> (c:
    WordEntry)
    ensures
        evolved_from(c, p, id@, lang@, parent_lang@),
{
    let WordEntry {
        entry_id,
        language_id: _,
        con_word_romanized,
        phonetic_ipa,
        phonetic_override,
        senses,
        etymology,
        metadata,
    } = p;
    let Etymology {
        origin_type: _,
        parent_entry_id: _,
        source_language_id: _,
        applied_sound_changes,
        semantic_shift_note,
    } = etymology;
    WordEntry {
        entry_id: id,
        language_id: lang.clone(),
        con_word_romanized,
        phonetic_ipa,
        phonetic_override,
        senses,
        etymology: Etymology {
            origin_type: String::from_str("evolved"),
            parent_entry_id: Some(entry_id),
            source_language_id: Some(parent_lang.clone()),
            applied_sound_changes,
            semantic_shift_note,
        },
        metadata,
    }
}

/// Ids made from one clock reading and different sequence numbers differ.
pub proof fn lemma_entry_id_injective(millis: nat, a: nat, b: nat)
    requires
        entry_id_text(millis, a) == entry_id_text(millis, b),
    ensures
        a == b,
{
    let p = "entry_"@ + decimal(millis) + "_"@;
    let x = entry_id_text(millis, a);
    let y = entry_id_text(millis, b);
    assert(x == p + decimal(a));
    assert(y == p + decimal(b));
    assert(x.subrange(p.len() as int, x.len() as int) =~= decimal(a));
    assert(y.subrange(p.len() as int, y.len() as int) =~= decimal(b));
    lemma_decimal_injective(a, b);
}

/// `c`, among the child's entries `child`, is the copy of one parent entry under the id
/// made from its position in `parent`, and no other child entry has that id.
pub open spec fn carried_over(
    c: WordEntry,
    child: Seq<WordEntry>,
    parent: Seq<WordEntry>,
    millis: nat,
    first_seq: nat,
    lang: Seq<char>,
    parent_lang: Seq<char>,
) -> bool {
    exists|i: int|
        0 <= i < parent.len() && evolved_from(
            c,
            parent[i],
            entry_id_text(millis, (first_seq + i) as nat),
            lang,
            parent_lang,
        ) && count_id(child, entry_id_text(millis, (first_seq + i) as nat)) == 1
}

/// The lexicon of a language forked from `parent`: every parent entry, in load order,
/// carried into `new_language_id` under the next id of `ids`, marked as evolved from
/// its parent entry of `parent_language_id`, and upserted into a lexicon that starts
/// empty. Lines that could not be read in the parent are not carried over.
pub fn fork(
    parent: Lexicon,
    ids: &mut EntryIdGenerator,
    new_language_id: &String,
    parent_language_id: &String,
) -> (child: Lexicon)
    requires
        old(ids).next_seq + all_entries(parent@).len() <= u64::MAX,
    ensures
        final(ids).millis == old(ids).millis,
        final(ids).next_seq == old(ids).next_seq + all_entries(parent@).len(),
        all_entries(child@).len() == all_entries(parent@).len(),
        child.well_formed(),
        forall|k: int|
            0 <= k < all_entries(child@).len() ==> carried_over(
                #[trigger] all_entries(child@)[k],
                all_entries(child@),
                all_entries(parent@),
                old(ids).millis as nat,
                old(ids).next_seq as nat,
                new_language_id@,
                parent_language_id@,
            ),
{
    let ghost src = all_entries(parent@);
    let ghost ms = ids.millis as nat;
    let ghost seq0 = ids.next_seq as nat;
    assert(ms == old(ids).millis as nat && seq0 == old(ids).next_seq as nat);
    let entries = parent.load_all();
    let n = entries.len();
    assert(n == src.len());
    let mut rev = reversed(entries);
    let mut child = Lexicon::new();
    let mut j: usize = 0;
    while rev.len() > 0
        invariant
            rev.len() + j == src.len(),
            src.len() <= usize::MAX,
            forall|k: int| 0 <= k < rev.len() ==> #[trigger] rev@[k] == src[src.len() - 1 - k],
            ids.millis as nat == ms,
            ids.next_seq as nat == seq0 + j,
            seq0 + src.len() <= u64::MAX,
            all_entries(child@).len() == j,
            child.well_formed(),
            forall|i: int|
                0 <= i < j ==> count_id(
                    all_entries(child@),
                    #[trigger] entry_id_text(ms, (seq0 + i) as nat),
                ) == 1,
            forall|y: WordEntry|
                all_entries(child@).contains(y) ==> exists|i: int|
                    0 <= i < j && #[trigger] evolved_from(
                        y,
                        src[i],
                        entry_id_text(ms, (seq0 + i) as nat),
                        new_language_id@,
                        parent_language_id@,
                    ),
        decreases rev.len(),
    {
        let p = rev.pop().unwrap();
        assert(p == src[j as int]);
        let id = ids.next_id();
        let c = evolve_entry(p, id, new_language_id, parent_language_id);
        let ghost before = child@;
        assert(forall|y: WordEntry|
            all_entries(before).contains(y) ==> exists|i: int|
                0 <= i < j && #[trigger] evolved_from(
                    y,
                    src[i],
                    entry_id_text(ms, (seq0 + i) as nat),
                    new_language_id@,
                    parent_language_id@,
                ));
        assert(forall|i: int|
            0 <= i < j ==> count_id(
                all_entries(before),
                #[trigger] entry_id_text(ms, (seq0 + i) as nat),
            ) == 1);
        proof {
            let cid = entry_id_text(ms, (seq0 + j) as nat);
            let all = all_entries(before);
            assert forall|k: int| 0 <= k < all.len() implies (#[trigger] all[k]).entry_id@
                != cid by {
                assert(all.contains(all[k]));
                let i = choose|i: int|
                    0 <= i < j && #[trigger] evolved_from(
                        all[k],
                        src[i],
                        entry_id_text(ms, (seq0 + i) as nat),
                        new_language_id@,
                        parent_language_id@,
                    );
                if all[k].entry_id@ == cid {
                    lemma_entry_id_injective(ms, (seq0 + i) as nat, (seq0 + j) as nat);
                }
            }
            lemma_count_zero(all, cid);
            lemma_upsert_fresh(before, c);
            assert(opt_view(None) == None::<Seq<char>>);
        }
        child.upsert(c, None);
        proof {
            let cid = entry_id_text(ms, (seq0 + j) as nat);
            assert forall|i: int| 0 <= i < j + 1 implies count_id(
                all_entries(child@),
                #[trigger] entry_id_text(ms, (seq0 + i) as nat),
            ) == 1 by {
                if i < j {
                    if entry_id_text(ms, (seq0 + i) as nat) == cid {
                        lemma_entry_id_injective(ms, (seq0 + i) as nat, (seq0 + j) as nat);
                    }
                }
            }
            assert forall|y: WordEntry| all_entries(child@).contains(y) implies exists|i: int|
                0 <= i < j + 1 && #[trigger] evolved_from(
                    y,
                    src[i],
                    entry_id_text(ms, (seq0 + i) as nat),
                    new_language_id@,
                    parent_language_id@,
                ) by {
                if y != c {
                    assert(all_entries(before).contains(y));
                } else {
                    assert(evolved_from(
                        y,
                        src[j as int],
                        entry_id_text(ms, (seq0 + j) as nat),
                        new_language_id@,
                        parent_language_id@,
                    ));
                }
            }
        }
        j = j + 1;
    }
    proof {
        let all = all_entries(child@);
        assert forall|k: int| 0 <= k < all.len() implies carried_over(
            #[trigger] all[k],
            all,
            src,
            ms,
            seq0,
            new_language_id@,
            parent_language_id@,
        ) by {
            assert(all.contains(all[k]));
            let i = choose|i: int|
                0 <= i < j && #[trigger] evolved_from(
                    all[k],
                    src[i],
                    entry_id_text(ms, (seq0 + i) as nat),
                    new_language_id@,
                    parent_language_id@,
                );
            assert(count_id(all, entry_id_text(ms, (seq0 + i) as nat)) == 1);
        }
    }
    child
}

} // verus!
