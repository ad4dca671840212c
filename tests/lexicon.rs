use conlang_store::lexicon::{bucket_path, shard_key, Bucket, Lexicon};
use conlang_store::models::{EntryMetadata, Etymology, WordEntry};
use conlang_store::text::{records_text, text_records};

fn entry(id: &str, head: &str) -> WordEntry {
    WordEntry {
        entry_id: id.to_string(),
        language_id: "lang_a".to_string(),
        con_word_romanized: head.to_string(),
        phonetic_ipa: String::new(),
        phonetic_override: false,
        senses: Vec::new(),
        etymology: Etymology::default(),
        metadata: EntryMetadata::default(),
    }
}

fn bucket<'a>(lex: &'a Lexicon, name: &str) -> Option<&'a Bucket> {
    lex.buckets.iter().find(|b| b.name == name)
}

fn heads(b: &Bucket) -> Vec<(String, String)> {
    b.entries.iter().map(|e| (e.entry_id.clone(), e.con_word_romanized.clone())).collect()
}

#[test]
fn shard_key_maps_letters_and_others() {
    assert_eq!(shard_key("apple"), "lexicon_a.ndjson");
    assert_eq!(shard_key("Banana"), "lexicon_b.ndjson");
    assert_eq!(shard_key(""), "lexicon_others.ndjson");
    assert_eq!(shard_key("1st"), "lexicon_others.ndjson");
    assert_eq!(shard_key("ñandu"), "lexicon_others.ndjson");
    assert_eq!(shard_key("Ärger"), "lexicon_others.ndjson");
}

#[test]
fn bucket_path_joins_directory_and_bucket() {
    assert_eq!(bucket_path("proj/lang/lexicon", "Zeta"), "proj/lang/lexicon/lexicon_z.ndjson");
    assert_eq!(bucket_path("lexicon/", "x"), "lexicon/lexicon_x.ndjson");
    assert_eq!(bucket_path("", "?"), "lexicon_others.ndjson");
}

#[test]
fn upsert_into_empty_store_creates_bucket() {
    let mut lex = Lexicon::new();
    let rewritten = lex.upsert(entry("e1", "apple"), None);
    assert_eq!(rewritten, vec!["lexicon_a.ndjson".to_string()]);
    let all = lex.load_all();
    assert_eq!(all.len(), 1);
    assert_eq!(all[0].entry_id, "e1");
}

#[test]
fn upsert_keeps_bucket_sorted_and_replaces_by_id() {
    let mut lex = Lexicon::new();
    lex.upsert(entry("e1", "azure"), None);
    lex.upsert(entry("e2", "able"), None);
    lex.upsert(entry("e3", "ant"), None);
    lex.upsert(entry("e1", "axe"), None);
    let b = bucket(&lex, "lexicon_a.ndjson").unwrap();
    assert_eq!(
        heads(b),
        vec![
            ("e2".to_string(), "able".to_string()),
            ("e3".to_string(), "ant".to_string()),
            ("e1".to_string(), "axe".to_string()),
        ]
    );
}

#[test]
fn upsert_then_load_finds_entry_once() {
    let mut lex = Lexicon::new();
    lex.upsert(entry("e1", "apple"), None);
    lex.upsert(entry("e2", "banana"), None);
    let mut changed = entry("e2", "cherry");
    changed.phonetic_ipa = "ˈtʃɛri".to_string();
    lex.upsert(changed, Some("banana".to_string()));
    let all = lex.load_all();
    let found: Vec<&WordEntry> = all.iter().filter(|e| e.entry_id == "e2").collect();
    assert_eq!(found.len(), 1);
    assert_eq!(found[0].con_word_romanized, "cherry");
    assert_eq!(found[0].phonetic_ipa, "ˈtʃɛri");
    assert_eq!(all.len(), 2);
}

#[test]
fn upsert_moving_bucket_leaves_no_copy() {
    let mut lex = Lexicon::new();
    lex.upsert(entry("e1", "apple"), None);
    lex.upsert(entry("e2", "avocado"), None);
    let rewritten = lex.upsert(entry("e1", "kiwi"), Some("apple".to_string()));
    assert_eq!(
        rewritten,
        vec!["lexicon_a.ndjson".to_string(), "lexicon_k.ndjson".to_string()]
    );
    let a = bucket(&lex, "lexicon_a.ndjson").unwrap();
    assert!(a.entries.iter().all(|e| e.entry_id != "e1"));
    let k = bucket(&lex, "lexicon_k.ndjson").unwrap();
    assert_eq!(k.entries.iter().filter(|e| e.entry_id == "e1").count(), 1);
}

#[test]
fn upsert_within_bucket_example() {
    let mut lex = Lexicon::new();
    lex.upsert(entry("e1", "apple"), None);
    lex.upsert(entry("e2", "banana"), None);
    let rewritten = lex.upsert(entry("e1", "apricot"), Some("apple".to_string()));
    assert_eq!(rewritten, vec!["lexicon_a.ndjson".to_string()]);
    let a = bucket(&lex, "lexicon_a.ndjson").unwrap();
    assert_eq!(heads(a), vec![("e1".to_string(), "apricot".to_string())]);
    let b = bucket(&lex, "lexicon_b.ndjson").unwrap();
    assert_eq!(heads(b), vec![("e2".to_string(), "banana".to_string())]);
}

#[test]
fn upsert_across_buckets_example() {
    let mut lex = Lexicon::new();
    lex.upsert(entry("e1", "apple"), None);
    lex.upsert(entry("e1", "banana"), Some("apple".to_string()));
    let a = bucket(&lex, "lexicon_a.ndjson").unwrap();
    assert!(a.entries.is_empty());
    let b = bucket(&lex, "lexicon_b.ndjson").unwrap();
    assert_eq!(heads(b), vec![("e1".to_string(), "banana".to_string())]);
}

#[test]
fn upsert_without_previous_head_word_keeps_stale_copy() {
    let mut lex = Lexicon::new();
    lex.upsert(entry("e1", "apple"), None);
    lex.upsert(entry("e1", "banana"), None);
    let all = lex.load_all();
    assert_eq!(all.iter().filter(|e| e.entry_id == "e1").count(), 2);
}

#[test]
fn delete_removes_entry_and_ignores_missing_bucket() {
    let mut lex = Lexicon::new();
    lex.upsert(entry("e1", "apple"), None);
    lex.upsert(entry("e2", "ant"), None);
    assert_eq!(lex.delete(&"e1".to_string(), "apple"), Some("lexicon_a.ndjson".to_string()));
    assert_eq!(lex.delete(&"e9".to_string(), "zebra"), None);
    let all = lex.load_all();
    assert_eq!(all.len(), 1);
    assert_eq!(all[0].entry_id, "e2");
}

#[test]
fn bucket_from_lines_counts_unreadable_lines() {
    let b = Bucket::from_lines(
        "lexicon_a.ndjson".to_string(),
        vec![Some(entry("e1", "apple")), None, Some(entry("e2", "ant")), None],
    );
    assert_eq!(b.skipped, 2);
    assert_eq!(b.entries.len(), 2);
    assert_eq!(b.entries[1].entry_id, "e2");
}

#[test]
fn rewriting_a_bucket_drops_unreadable_lines() {
    let mut lex = Lexicon::new();
    lex.add_bucket(Bucket::from_lines(
        "lexicon_a.ndjson".to_string(),
        vec![Some(entry("e1", "apple")), None],
    ));
    lex.upsert(entry("e2", "ant"), None);
    let a = bucket(&lex, "lexicon_a.ndjson").unwrap();
    assert_eq!(a.skipped, 0);
    assert_eq!(a.entries.len(), 2);
}

#[test]
fn text_records_skip_blank_lines_and_trim() {
    let lines = text_records("  {\"a\":1}  \r\n\n\t\n{\"b\":2}\n   ");
    assert_eq!(lines, vec!["{\"a\":1}".to_string(), "{\"b\":2}".to_string()]);
    assert!(text_records("").is_empty());
    assert_eq!(text_records("x"), vec!["x".to_string()]);
}

#[test]
fn records_text_joins_with_trailing_newline() {
    assert_eq!(records_text(&vec!["a".to_string(), "b".to_string()]), "a\nb\n");
    assert_eq!(records_text(&Vec::new()), "\n");
    let back = text_records(&records_text(&vec!["one".to_string(), "two".to_string()]));
    assert_eq!(back, vec!["one".to_string(), "two".to_string()]);
}
