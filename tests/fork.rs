use conlang_store::fork::{evolve_entry, fork, generate_entry_id, EntryIdGenerator};
use conlang_store::lexicon::{Bucket, Lexicon};
use conlang_store::models::{EntryMetadata, Etymology, Sense, WordEntry};

fn entry(id: &str, head: &str) -> WordEntry {
    WordEntry {
        entry_id: id.to_string(),
        language_id: "parent".to_string(),
        con_word_romanized: head.to_string(),
        phonetic_ipa: "ipa".to_string(),
        phonetic_override: true,
        senses: vec![Sense {
            sense_id: "s1".to_string(),
            pos_id: "noun".to_string(),
            gloss: "thing".to_string(),
            definitions: Vec::new(),
            examples: Vec::new(),
            grammatical_function: None,
        }],
        etymology: Etymology::default(),
        metadata: EntryMetadata::default(),
    }
}

#[test]
fn entry_id_is_prefix_clock_and_sequence() {
    assert_eq!(generate_entry_id(1700000000123, 0), "entry_1700000000123_0");
    assert_eq!(generate_entry_id(5, 42), "entry_5_42");
}

#[test]
fn generator_counts_up() {
    let mut ids = EntryIdGenerator::new(9, 3);
    assert_eq!(ids.next_id(), "entry_9_3");
    assert_eq!(ids.next_id(), "entry_9_4");
    assert_eq!(ids.next_seq, 5);
}

#[test]
fn evolve_entry_marks_lineage() {
    let c = evolve_entry(entry("pa", "apple"), "entry_1_0".to_string(), &"child".to_string(), &"parent".to_string());
    assert_eq!(c.entry_id, "entry_1_0");
    assert_eq!(c.language_id, "child");
    assert_eq!(c.con_word_romanized, "apple");
    assert_eq!(c.etymology.origin_type, "evolved");
    assert_eq!(c.etymology.parent_entry_id.as_deref(), Some("pa"));
    assert_eq!(c.etymology.source_language_id.as_deref(), Some("parent"));
    assert_eq!(c.senses.len(), 1);
    assert!(c.phonetic_override);
}

#[test]
fn fork_copies_valid_entries_and_skips_malformed() {
    let mut parent = Lexicon::new();
    parent.add_bucket(Bucket::from_lines(
        "lexicon_b.ndjson".to_string(),
        vec![Some(entry("pb", "beta")), None],
    ));
    parent.add_bucket(Bucket::from_lines(
        "lexicon_a.ndjson".to_string(),
        vec![None, Some(entry("pa", "alpha")), Some(entry("pc", "aleph"))],
    ));
    let mut ids = EntryIdGenerator::new(77, 0);
    let child = fork(parent, &mut ids, &"child".to_string(), &"parent".to_string());
    assert_eq!(ids.next_seq, 3);
    let all = child.load_all();
    assert_eq!(all.len(), 3);
    for e in &all {
        assert!(e.entry_id.starts_with("entry_77_"));
        assert_eq!(e.language_id, "child");
        assert_eq!(e.etymology.origin_type, "evolved");
        assert_eq!(e.etymology.source_language_id.as_deref(), Some("parent"));
    }
    let mut pairs: Vec<(String, String)> = all
        .iter()
        .map(|e| (e.etymology.parent_entry_id.clone().unwrap(), e.con_word_romanized.clone()))
        .collect();
    pairs.sort();
    assert_eq!(
        pairs,
        vec![
            ("pa".to_string(), "alpha".to_string()),
            ("pb".to_string(), "beta".to_string()),
            ("pc".to_string(), "aleph".to_string()),
        ]
    );
    let mut new_ids: Vec<String> = all.iter().map(|e| e.entry_id.clone()).collect();
    new_ids.sort();
    new_ids.dedup();
    assert_eq!(new_ids.len(), 3);
}

#[test]
fn fork_sorts_child_buckets_by_head_word() {
    let mut parent = Lexicon::new();
    parent.add_bucket(Bucket::from_lines(
        "lexicon_a.ndjson".to_string(),
        vec![Some(entry("pa", "azure")), Some(entry("pb", "able"))],
    ));
    let mut ids = EntryIdGenerator::new(1, 0);
    let child = fork(parent, &mut ids, &"c".to_string(), &"p".to_string());
    assert_eq!(child.buckets.len(), 1);
    let heads: Vec<String> = child.buckets[0].entries.iter().map(|e| e.con_word_romanized.clone()).collect();
    assert_eq!(heads, vec!["able".to_string(), "azure".to_string()]);
}

#[test]
fn fork_of_empty_lexicon_is_empty() {
    let mut ids = EntryIdGenerator::new(1, 0);
    let child = fork(Lexicon::new(), &mut ids, &"c".to_string(), &"p".to_string());
    assert!(child.buckets.is_empty());
    assert_eq!(ids.next_seq, 0);
}
