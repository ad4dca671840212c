use conlang_store::corpus::{index_entry_of, remove_from_index, upsert_index};
use conlang_store::models::{
    default_phonology, CorpusIndexEntry, CorpusText, FamilyEntry, GlobalRegistry, LanguageEntry,
    SCAConfig, SyntaxConfig, WorkspaceConfig,
};
use conlang_store::registry::{now_iso, register_family, set_active_family, unregister_family, RegistryError};
use conlang_store::text::to_zero_padded;
use conlang_store::workspace::{
    conlang_file_name, generate_short_id, new_project_config, project_dir_name, sanitize_filename, DeleteError,
};

fn family(name: &str, path: &str) -> FamilyEntry {
    FamilyEntry { name: name.to_string(), conlang_file_path: path.to_string(), last_opened: "t0".to_string() }
}

fn lang(id: &str, parent: Option<&str>) -> LanguageEntry {
    LanguageEntry {
        language_id: id.to_string(),
        name: id.to_uppercase(),
        path: id.to_string(),
        parent_id: parent.map(|p| p.to_string()),
    }
}

#[test]
fn registry_timestamp_format() {
    assert_eq!(now_iso(0), "1970-01-01T00:00:00Z");
    assert_eq!(now_iso(86400 * 365 + 3661), "1971-01-01T01:01:01Z");
    assert_eq!(now_iso(86400 * 59 + 59), "1970-02-30T00:00:59Z");
}

#[test]
fn zero_padding_widens_only() {
    assert_eq!(to_zero_padded(7, 2), "07");
    assert_eq!(to_zero_padded(123, 2), "123");
    assert_eq!(to_zero_padded(0, 4), "0000");
}

#[test]
fn register_new_family_appends_and_activates() {
    let mut reg = GlobalRegistry::default();
    register_family(&mut reg, "First".to_string(), "/a.conlang".to_string(), "t1".to_string());
    register_family(&mut reg, "Second".to_string(), "/b.conlang".to_string(), "t2".to_string());
    assert_eq!(reg.families.len(), 2);
    assert_eq!(reg.active_family_index, Some(1));
    assert_eq!(reg.families[1].last_opened, "t2");
}

#[test]
fn register_known_family_renames_it() {
    let mut reg = GlobalRegistry::default();
    reg.families = vec![family("A", "/a"), family("B", "/b")];
    register_family(&mut reg, "Bee".to_string(), "/b".to_string(), "t9".to_string());
    assert_eq!(reg.families.len(), 2);
    assert_eq!(reg.families[1].name, "Bee");
    assert_eq!(reg.families[1].last_opened, "t9");
    assert_eq!(reg.families[0].name, "A");
    assert_eq!(reg.active_family_index, Some(1));
}

#[test]
fn unregister_adjusts_active_index() {
    let mut reg = GlobalRegistry::default();
    reg.families = vec![family("A", "/a"), family("B", "/b"), family("C", "/c")];
    reg.active_family_index = Some(2);
    assert_eq!(unregister_family(&mut reg, 0), Ok(()));
    assert_eq!(reg.active_family_index, Some(1));
    assert_eq!(unregister_family(&mut reg, 1), Ok(()));
    assert_eq!(reg.active_family_index, Some(0));
    assert_eq!(unregister_family(&mut reg, 0), Ok(()));
    assert_eq!(reg.active_family_index, None);
    assert_eq!(unregister_family(&mut reg, 0), Err(RegistryError::IndexOutOfRange));
    assert_eq!(RegistryError::IndexOutOfRange.message(), "Family index out of range");
}

#[test]
fn set_active_family_checks_range() {
    let mut reg = GlobalRegistry::default();
    reg.families = vec![family("A", "/a")];
    assert_eq!(set_active_family(&mut reg, 3, "t".to_string()), Err(RegistryError::IndexOutOfRange));
    assert_eq!(reg.active_family_index, None);
    assert_eq!(set_active_family(&mut reg, 0, "t5".to_string()), Ok(()));
    assert_eq!(reg.active_family_index, Some(0));
    assert_eq!(reg.families[0].last_opened, "t5");
}

#[test]
fn sanitize_filename_replaces_unsafe_characters() {
    assert_eq!(sanitize_filename("My Lang!"), "My_Lang_");
    assert_eq!(sanitize_filename(""), "conlang");
    assert_eq!(sanitize_filename("古语-v2_x"), "古语-v2_x");
    assert_eq!(sanitize_filename("a/b\\c"), "a_b_c");
}

#[test]
fn short_id_is_eight_base36_digits() {
    assert_eq!(generate_short_id(0), "00000000");
    assert_eq!(generate_short_id(35), "0000000z");
    assert_eq!(generate_short_id(36), "00000010");
    assert_eq!(generate_short_id(36u128.pow(8) + 1), "00000001");
}

#[test]
fn new_project_names() {
    assert_eq!(project_dir_name("Elvish", "ab12cd34"), "Elvish-ab12cd34");
    assert_eq!(conlang_file_name("Elvish", "ab12cd34"), "Elvish-ab12cd34.conlang");
    let config = new_project_config("Elvish".to_string(), "ab12cd34");
    assert_eq!(config.workspace_version, "3.0");
    assert_eq!(config.languages.len(), 1);
    assert_eq!(config.languages[0].language_id, "lang_ab12cd34");
    assert_eq!(config.languages[0].path, "proto_language");
}

#[test]
fn workspace_default_has_proto_language() {
    let ws = WorkspaceConfig::default();
    assert_eq!(ws.workspace_version, "3.0");
    assert_eq!(ws.languages[0].language_id, "lang_proto");
    assert_eq!(ws.languages[0].name, "Proto Language");
}

#[test]
fn deleting_languages_is_checked() {
    let mut ws = WorkspaceConfig::default();
    ws.languages = vec![lang("root", None), lang("kid", Some("root"))];
    assert_eq!(ws.deletable_language(&"nope".to_string()), Err(DeleteError::NotFound));
    assert_eq!(ws.deletable_language(&"root".to_string()), Err(DeleteError::HasChildren));
    assert_eq!(ws.deletable_language(&"kid".to_string()), Ok(1));
    ws.remove_language(&"kid".to_string());
    assert_eq!(ws.languages.len(), 1);
    assert_eq!(ws.deletable_language(&"root".to_string()), Err(DeleteError::LastLanguage));
    assert_eq!(ws.find_language(&"root".to_string()), Some(0));
    ws.add_language(lang("kid2", Some("root")));
    assert!(ws.has_children(&"root".to_string()));
}

#[test]
fn corpus_index_upsert_sorts_by_id() {
    let mk = |id: &str, title: &str| CorpusIndexEntry { corpus_id: id.to_string(), title: title.to_string(), ..Default::default() };
    let index = vec![mk("c3", "three"), mk("c1", "one")];
    let mut text = CorpusText::default();
    text.corpus_id = "c2".to_string();
    text.title = "two".to_string();
    text.metadata.tags = vec!["poem".to_string()];
    let entry = index_entry_of(&text);
    assert_eq!(entry.metadata.tags, vec!["poem".to_string()]);
    let index = upsert_index(index, entry);
    let ids: Vec<&str> = index.iter().map(|e| e.corpus_id.as_str()).collect();
    assert_eq!(ids, vec!["c1", "c2", "c3"]);
    let index = upsert_index(index, mk("c1", "uno"));
    assert_eq!(index.len(), 3);
    assert_eq!(index[0].title, "uno");
    let index = remove_from_index(index, &"c2".to_string());
    let ids: Vec<&str> = index.iter().map(|e| e.corpus_id.as_str()).collect();
    assert_eq!(ids, vec!["c1", "c3"]);
}

#[test]
fn config_defaults() {
    let syntax = SyntaxConfig::default();
    assert_eq!(syntax.word_order, "SVO");
    assert_eq!(syntax.adposition_type, "preposition");
    let sca = SCAConfig::default();
    assert_eq!(sca.language_id, "lang_proto");
    assert!(sca.rule_sets.is_empty());
    let phono = default_phonology();
    assert_eq!(phono.phonotactics.syllable_structure, "(C)V(C)");
    assert!(!phono.phonotactics.vowel_harmony.enabled);
    let reg = GlobalRegistry::default();
    assert_eq!(reg.registry_version, "1.0");
}
