//! The data model of a constructed-language project: phonology, lexicon, grammar,
//! sound changes, corpus, workspace, registry and the operation log.
use std::collections::HashMap;
use vstd::prelude::*;

verus! {

// ── Phonology ──────────────────────────────────────────────
#[derive(Debug)]
pub struct PhonemeInventory {
    pub consonants: Vec<String>,
    pub vowels: Vec<String>,
}

#[derive(Debug)]
pub struct RomanizationRule {
    pub input: String,
    pub output_phoneme: String,
    pub context_before: String,
    pub context_after: String,
}

#[derive(Debug)]
pub struct RomanizationMap {
    pub map_id: String,
    pub name: String,
    pub is_default: bool,
    pub rules: Vec<RomanizationRule>,
}

#[derive(Debug)]
pub struct VowelHarmony {
    pub enabled: bool,
    pub group_a: Vec<String>,
    pub group_b: Vec<String>,
}

impl Default for VowelHarmony {
    fn default() -> (r: Self)
        ensures
            !r.enabled,
            r.group_a@.len() == 0,
            r.group_b@.len() == 0,
    {
        VowelHarmony { enabled: false, group_a: Vec::new(), group_b: Vec::new() }
    }
}

#[derive(Debug)]
pub struct ToneDefinition {
    pub tone_id: String,
    pub name: String,
    pub marker: String,
}

#[derive(Debug)]
pub struct ToneSystem {
    pub enabled: bool,
    pub tones: Vec<ToneDefinition>,
}

impl Default for ToneSystem {
    fn default() -> (r: Self)
        ensures
            !r.enabled,
            r.tones@.len() == 0,
    {
        ToneSystem { enabled: false, tones: Vec::new() }
    }
}

#[derive(Debug)]
pub struct Phonotactics {
    pub macros: HashMap<String, Vec<String>>,
    pub syllable_structure: String,
    pub blacklist_patterns: Vec<String>,
    pub vowel_harmony: VowelHarmony,
    pub tone_system: ToneSystem,
}

#[derive(Debug)]
pub struct AllophonyRule {
    pub rule_id: String,
    pub description: String,
    pub target: String,
    pub replacement: String,
    pub context_before: String,
    pub context_after: String,
    pub priority: u32,
}

#[derive(Debug)]
pub struct PhonologyConfig {
    pub language_id: String,
    pub phoneme_inventory: PhonemeInventory,
    pub romanization_maps: Vec<RomanizationMap>,
    pub phonotactics: Phonotactics,
    pub allophony_rules: Vec<AllophonyRule>,
}

/// The phonology of a language that has none stored yet: empty inventories, the
/// syllable structure `(C)V(C)`, no rules.
pub fn default_phonology() -> (r: PhonologyConfig)
    ensures
        r.language_id@ == default_language_id_text(),
        r.phoneme_inventory.consonants@.len() == 0,
        r.phoneme_inventory.vowels@.len() == 0,
        r.romanization_maps@.len() == 0,
        r.phonotactics.syllable_structure@ == "(C)V(C)"@,
        r.phonotactics.blacklist_patterns@.len() == 0,
        !r.phonotactics.vowel_harmony.enabled,
        !r.phonotactics.tone_system.enabled,
        r.allophony_rules@.len() == 0,
{
    PhonologyConfig {
        language_id: default_language_id(),
        phoneme_inventory: PhonemeInventory { consonants: Vec::new(), vowels: Vec::new() },
        romanization_maps: Vec::new(),
        phonotactics: Phonotactics {
            macros: HashMap::new(),
            syllable_structure: String::from_str("(C)V(C)"),
            blacklist_patterns: Vec::new(),
            vowel_harmony: VowelHarmony::default(),
            tone_system: ToneSystem::default(),
        },
        allophony_rules: Vec::new(),
    }
}

// ── Lexicon ──────────────────────────────────────────────
#[derive(Debug)]
pub struct Sense {
    pub sense_id: String,
    pub pos_id: String,
    pub gloss: String,
    pub definitions: Vec<String>,
    pub examples: Vec<String>,
    pub grammatical_function: Option<String>,
}

#[derive(Debug)]
pub struct Etymology {
    pub origin_type: String,
    pub parent_entry_id: Option<String>,
    pub source_language_id: Option<String>,
    pub applied_sound_changes: Vec<String>,
    pub semantic_shift_note: String,
}

pub open spec fn default_origin_type_text() -> Seq<char> {
    "a_priori"@
}

/// The origin of an entry that records none: made up from scratch.
pub fn default_origin_type() -> (r: String)
    ensures
        r@ == default_origin_type_text(),
{
    String::from_str("a_priori")
}

impl Default for Etymology {
    fn default() -> (r: Self)
        ensures
            r.origin_type@ == default_origin_type_text(),
            r.parent_entry_id is None,
            r.source_language_id is None,
            r.applied_sound_changes@.len() == 0,
            r.semantic_shift_note@.len() == 0,
    {
        Etymology {
            origin_type: default_origin_type(),
            parent_entry_id: None,
            source_language_id: None,
            applied_sound_changes: Vec::new(),
            semantic_shift_note: String::new(),
        }
    }
}

#[derive(Debug)]
pub struct EntryMetadata {
    pub tags: Vec<String>,
    pub created_at: String,
    pub updated_at: String,
}

impl Default for EntryMetadata {
    fn default() -> (r: Self)
        ensures
            r.tags@.len() == 0,
            r.created_at@.len() == 0,
            r.updated_at@.len() == 0,
    {
        EntryMetadata { tags: Vec::new(), created_at: String::new(), updated_at: String::new() }
    }
}

/// One lexical entry. `con_word_romanized` is its head-word: it decides the bucket
/// the entry is stored in and its place there.
#[derive(Debug)]
pub struct WordEntry {
    pub entry_id: String,
    pub language_id: String,
    pub con_word_romanized: String,
    pub phonetic_ipa: String,
    pub phonetic_override: bool,
    pub senses: Vec<Sense>,
    pub etymology: Etymology,
    pub metadata: EntryMetadata,
}

// ── Grammar ──────────────────────────────────────────────
#[derive(Debug)]
pub struct SyntaxConfig {
    pub word_order: String,
    pub modifier_position: String,
    pub adposition_type: String,
}

pub fn default_word_order() -> (r: String)
    ensures
        r@ == "SVO"@,
{
    String::from_str("SVO")
}

pub fn default_modifier_position() -> (r: String)
    ensures
        r@ == "before_head"@,
{
    String::from_str("before_head")
}

pub fn default_adposition_type() -> (r: String)
    ensures
        r@ == "preposition"@,
{
    String::from_str("preposition")
}

impl Default for SyntaxConfig {
    fn default() -> (r: Self)
        ensures
            r.word_order@ == "SVO"@,
            r.modifier_position@ == "before_head"@,
            r.adposition_type@ == "preposition"@,
    {
        SyntaxConfig {
            word_order: default_word_order(),
            modifier_position: default_modifier_position(),
            adposition_type: default_adposition_type(),
        }
    }
}

#[derive(Debug)]
pub struct PartOfSpeech {
    pub pos_id: String,
    pub name: String,
    pub gloss_abbr: String,
    pub word_pattern: String,
    pub requires_definition: bool,
    pub requires_pronunciation: bool,
}

#[derive(Debug)]
pub struct DimensionValue {
    pub val_id: String,
    pub name: String,
    pub gloss: String,
}

#[derive(Debug)]
pub struct InflectionDimension {
    pub dim_id: String,
    pub name: String,
    pub applies_to_pos: Vec<String>,
    pub values: Vec<DimensionValue>,
}

#[derive(Debug)]
pub struct ConditionClause {
    pub condition_type: String,
    pub class: Option<String>,
    pub regex: Option<String>,
    pub then_affix: String,
    pub else_affix: String,
}

#[derive(Debug)]
pub struct InfixConfig {
    pub position_regex: String,
    pub morpheme: String,
}

#[derive(Debug)]
pub struct CircumfixConfig {
    pub prefix_part: String,
    pub suffix_part: String,
}

#[derive(Debug)]
pub struct ReduplicationConfig {
    pub mode: String,
}

pub fn default_reduplication_mode() -> (r: String)
    ensures
        r@ == "full"@,
{
    String::from_str("full")
}

#[derive(Debug)]
pub struct AblautConfig {
    pub target_vowel: String,
    pub replacement_vowel: String,
}

#[derive(Debug)]
pub struct InflectionRule {
    pub rule_id: String,
    pub pos_id: String,
    pub dimension_values: HashMap<String, String>,
    pub tag: String,
    pub affix_type: String,
    pub affix: String,
    pub match_regex: String,
    pub disabled: bool,
    pub condition: Option<ConditionClause>,
    pub infix_config: Option<InfixConfig>,
    pub circumfix_config: Option<CircumfixConfig>,
    pub reduplication_config: Option<ReduplicationConfig>,
    pub ablaut_config: Option<AblautConfig>,
    pub slot_id: Option<String>,
    pub conjugation_class_id: Option<String>,
    pub fused_dimensions: Option<Vec<HashMap<String, String>>>,
}

/// The pattern of an inflection rule that names none: it matches every stem.
pub fn default_match_regex() -> (r: String)
    ensures
        r@ == ".*"@,
{
    String::from_str(".*")
}

#[derive(Debug)]
pub struct DerivationRule {
    pub rule_id: String,
    pub name: String,
    pub source_pos_id: String,
    pub target_pos_id: String,
    pub affix_type: String,
    pub affix: String,
    pub condition: Option<ConditionClause>,
    pub infix_config: Option<InfixConfig>,
    pub circumfix_config: Option<CircumfixConfig>,
    pub semantic_note: String,
}

#[derive(Debug)]
pub struct EmbeddedParadigm {
    pub paradigm_id: String,
    pub pos_id: String,
    pub dimension_ids: Vec<String>,
    pub test_word: String,
}

#[derive(Debug)]
pub struct GrammarChapter {
    pub chapter_id: String,
    pub title: String,
    pub content: String,
    pub order: u32,
    pub embedded_paradigms: Vec<EmbeddedParadigm>,
}

pub fn default_morphological_type() -> (r: String)
    ensures
        r@ == "fusional"@,
{
    String::from_str("fusional")
}

pub fn default_head_marking() -> (r: String)
    ensures
        r@ == "dependent"@,
{
    String::from_str("dependent")
}

pub fn default_auto_estimated() -> (r: bool)
    ensures
        r,
{
    true
}

#[derive(Debug)]
pub struct AffixSlot {
    pub slot_id: String,
    pub position: i32,
    pub dimension_id: String,
    pub is_obligatory: bool,
    pub label: String,
}

#[derive(Debug)]
pub struct ConjugationClass {
    pub class_id: String,
    pub name: String,
    pub applies_to_pos: String,
    pub stem_pattern: String,
    pub rule_ids: Vec<String>,
}

#[derive(Debug)]
pub struct IrregularOverride {
    pub entry_id: String,
    pub dimension_values: HashMap<String, String>,
    pub surface_form: String,
}

pub open spec fn default_language_id_text() -> Seq<char> {
    "lang_proto"@
}

pub fn default_language_id() -> (r: String)
    ensures
        r@ == default_language_id_text(),
{
    String::from_str("lang_proto")
}

// ── Workspace ──────────────────────────────────────────────
#[derive(Debug)]
pub struct LanguageEntry {
    pub language_id: String,
    pub name: String,
    pub path: String,
    pub parent_id: Option<String>,
}

#[derive(Debug)]
pub struct WorkspaceConfig {
    pub workspace_version: String,
    pub languages: Vec<LanguageEntry>,
}

pub open spec fn workspace_version_text() -> Seq<char> {
    "3.0"@
}

pub fn default_workspace_version() -> (r: String)
    ensures
        r@ == workspace_version_text(),
{
    String::from_str("3.0")
}

impl Default for WorkspaceConfig {
    /// A workspace of one root language, `Proto Language` in `proto_language`.
    fn default() -> (r: Self)
        ensures
            r.workspace_version@ == workspace_version_text(),
            r.languages@.len() == 1,
            r.languages@[0].language_id@ == default_language_id_text(),
            r.languages@[0].name@ == "Proto Language"@,
            r.languages@[0].path@ == "proto_language"@,
            r.languages@[0].parent_id is None,
    {
        WorkspaceConfig {
            workspace_version: default_workspace_version(),
            languages: vec![
                LanguageEntry {
                    language_id: default_language_id(),
                    name: String::from_str("Proto Language"),
                    path: String::from_str("proto_language"),
                    parent_id: None,
                },
            ],
        }
    }
}

// ── Sound changes ──────────────────────────────────────────
#[derive(Debug, Default)]
pub struct FeatureExpression {
    pub positive: Vec<String>,
    pub negative: Vec<String>,
}

#[derive(Debug, Default)]
pub struct FeatureReplacement {
    pub set_features: Vec<String>,
    pub remove_features: Vec<String>,
}

#[derive(Debug)]
pub struct SCARule {
    pub rule_id: String,
    pub description: String,
    pub target: String,
    pub replacement: String,
    pub context_before: String,
    pub context_after: String,
    pub exceptions: Vec<String>,
    pub feature_mode: bool,
    pub target_features: Option<FeatureExpression>,
    pub replacement_features: Option<FeatureReplacement>,
    pub context_before_features: Option<FeatureExpression>,
    pub context_after_features: Option<FeatureExpression>,
}

#[derive(Debug)]
pub struct SCARuleSet {
    pub ruleset_id: String,
    pub name: String,
    pub order: u32,
    pub rules: Vec<SCARule>,
}

#[derive(Debug)]
pub struct SCAConfig {
    pub language_id: String,
    pub rule_sets: Vec<SCARuleSet>,
}

impl Default for SCAConfig {
    fn default() -> (r: Self)
        ensures
            r.language_id@ == default_language_id_text(),
            r.rule_sets@.len() == 0,
    {
        SCAConfig { language_id: default_language_id(), rule_sets: Vec::new() }
    }
}

// ── Corpus ──────────────────────────────────────────────
#[derive(Debug, Default)]
pub struct GlossToken {
    pub token_id: String,
    pub surface_form: String,
    pub morpheme_break: String,
    pub gloss_labels: String,
    pub linked_entry_id: String,
    pub ipa: String,
}

#[derive(Debug, Default)]
pub struct GlossedLine {
    pub line_id: String,
    pub original: String,
    pub tokens: Vec<GlossToken>,
    pub translation: String,
}

#[derive(Debug, Default)]
pub struct CorpusTextMeta {
    pub tags: Vec<String>,
    pub created_at: String,
    pub updated_at: String,
}

#[derive(Debug, Default)]
pub struct CorpusText {
    pub corpus_id: String,
    pub language_id: String,
    pub title: String,
    pub description: String,
    pub original_text: String,
    pub glossed_lines: Vec<GlossedLine>,
    pub free_translation: String,
    pub metadata: CorpusTextMeta,
}

#[derive(Debug, Default)]
pub struct CorpusIndexEntry {
    pub corpus_id: String,
    pub title: String,
    pub description: String,
    pub metadata: CorpusTextMeta,
}

// ── Registry of language families ──────────────────────────
#[derive(Debug)]
pub struct FamilyEntry {
    pub name: String,
    pub conlang_file_path: String,
    pub last_opened: String,
}

pub fn default_registry_version() -> (r: String)
    ensures
        r@ == "1.0"@,
{
    String::from_str("1.0")
}

#[derive(Debug)]
pub struct GlobalRegistry {
    pub registry_version: String,
    pub families: Vec<FamilyEntry>,
    pub active_family_index: Option<usize>,
}

impl Default for GlobalRegistry {
    fn default() -> (r: Self)
        ensures
            r.registry_version@ == "1.0"@,
            r.families@.len() == 0,
            r.active_family_index is None,
    {
        GlobalRegistry {
            registry_version: default_registry_version(),
            families: Vec::new(),
            active_family_index: None,
        }
    }
}

// ── Operation log ──────────────────────────────────────────
/// One checkpoint: the operation it was taken before, and the directory (under the
/// log's directory) that holds the copy of the lexicon.
#[derive(Debug)]
pub struct OperationLogEntry {
    pub log_id: String,
    pub operation_type: String,
    pub timestamp: String,
    pub source_language_id: String,
    pub target_language_id: String,
    pub description: String,
    pub snapshot_dir: String,
}

/// The checkpoints of a language, oldest first, and how many may be kept.
#[derive(Debug)]
pub struct OperationLog {
    pub max_snapshots: u32,
    pub entries: Vec<OperationLogEntry>,
}

pub fn default_max_snapshots() -> (r: u32)
    ensures
        r == 10,
{
    10
}

impl Default for OperationLog {
    fn default() -> (r: Self)
        ensures
            r.max_snapshots == 10,
            r.entries@.len() == 0,
    {
        OperationLog { max_snapshots: default_max_snapshots(), entries: Vec::new() }
    }
}

// ── Project creation ──────────────────────────────────────
#[derive(Debug)]
pub struct CreateProjectResult {
    pub config: WorkspaceConfig,
    pub conlang_file_path: String,
}

} // verus!
