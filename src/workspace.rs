//! The workspace file: the languages of a project, how they descend from each other,
//! and the names a new project is given.
use crate::models::{default_workspace_version, LanguageEntry, WorkspaceConfig};
use crate::models::workspace_version_text;
use crate::text::{chars_of, fixed_digits, push_char, push_fixed_digits};
use vstd::prelude::*;

verus! {

/// Whether a character is alphabetic or numeric in Unicode.
pub uninterp spec fn alphanumeric(c: char) -> bool;

/// Relies on `char::is_alphanumeric`: whether `c` is alphabetic or numeric.
#[verifier::external_body]
fn is_alphanumeric(c: char) -> (r: bool)
    ensures
        r == alphanumeric(c),
{
    c.is_alphanumeric()
}

/// A character that may stay in a file name: alphanumeric, `-`, `_`, or a CJK
/// unified ideograph.
pub open spec fn file_name_char(c: char) -> bool {
    alphanumeric(c) || c == '-' || c == '_' || ('\u{4e00}' <= c && c <= '\u{9fff}')
}

pub open spec fn sanitized(s: Seq<char>) -> Seq<char> {
    s.map_values(|c: char| if file_name_char(c) { c } else { '_' })
}

/// `name` with every character that may not stand in a file name replaced by `_`;
/// `conlang` for an empty name.
pub fn sanitize_filename(name: &str) -> (r: String)
    ensures
        name@.len() == 0 ==> r@ == "conlang"@,
        name@.len() > 0 ==> r@ == sanitized(name@),
{
    let v = chars_of(name);
    let mut r = String::new();
    let mut i: usize = 0;
    while i < v.len()
        invariant
            v@ == name@,
            i <= v.len(),
            r@ == sanitized(v@.take(i as int)),
        decreases v.len() - i,
    {
        let c = v[i];
        let keep = is_alphanumeric(c) || c == '-' || c == '_' || ('\u{4e00}' <= c && c <= '\u{9fff}');
        if keep {
            push_char(&mut r, c);
        } else {
            push_char(&mut r, '_');
        }
        assert(r@ =~= sanitized(v@.take(i + 1)));
        i = i + 1;
    }
    assert(v@.take(i as int) =~= v@);
    if i == 0 {
        String::from_str("conlang")
    } else {
        r
    }
}

/// An eight-character project id: the lowest eight base-36 digits of `value`, in
/// `0`-`9` and `a`-`z`.
pub fn generate_short_id(value: u128) -> (r: String)
    ensures
        r@ == fixed_digits(value as nat, 36, 8),
{
    let mut r = String::new();
    push_fixed_digits(&mut r, value, 36, 8);
    r
}

/// `<name>-<id>`, the directory of a new project.
pub fn project_dir_name(safe_name: &str, random_id: &str) -> (r: String)
    ensures
        r@ == safe_name@ + "-"@ + random_id@,
{
    let mut r = String::from_str(safe_name);
    r.append("-");
    r.append(random_id);
    r
}

/// `<name>-<id>.conlang`, the workspace file of a project.
pub fn conlang_file_name(safe_name: &str, random_id: &str) -> (r: String)
    ensures
        r@ == safe_name@ + "-"@ + random_id@ + ".conlang"@,
{
    let mut r = project_dir_name(safe_name, random_id);
    r.append(".conlang");
    r
}

/// The language id of a new project's root language.
pub fn root_language_id(random_id: &str) -> (r: String)
    ensures
        r@ == "lang_"@ + random_id@,
{
    let mut r = String::from_str("lang_");
    r.append(random_id);
    r
}

/// The workspace of a new project: one root language `lang_<id>` named `lang_name`,
/// stored in `proto_language`.
pub fn new_project_config(lang_name: String, random_id: &str) -> (r: WorkspaceConfig)
    ensures
        r.workspace_version@ == workspace_version_text(),
        r.languages@.len() == 1,
        r.languages@[0].language_id@ == "lang_"@ + random_id@,
        r.languages@[0].name@ == lang_name@,
        r.languages@[0].path@ == "proto_language"@,
        r.languages@[0].parent_id is None,
{
    let mut languages: Vec<LanguageEntry> = Vec::new();
    languages.push(
        LanguageEntry {
            language_id: root_language_id(random_id),
            name: lang_name,
            path: String::from_str("proto_language"),
            parent_id: None,
        },
    );
    WorkspaceConfig { workspace_version: default_workspace_version(), languages }
}

/// Why a language cannot be deleted.
#[derive(Debug, PartialEq, Eq, Structural)]
pub enum DeleteError {
    NotFound,
    HasChildren,
    LastLanguage,
}

pub open spec fn language_ids(s: Seq<LanguageEntry>) -> Seq<Seq<char>> {
    s.map_values(|l: LanguageEntry| l.language_id@)
}

/// Some language names `id` as its parent.
pub open spec fn has_child(s: Seq<LanguageEntry>, id: Seq<char>) -> bool {
    exists|i: int| 0 <= i < s.len() && (#[trigger] s[i]).parent_id is Some && s[i].parent_id->0@ == id
}

/// The languages of `s` whose id is not `id`, in order.
pub open spec fn without_language(s: Seq<LanguageEntry>, id: Seq<char>) -> Seq<LanguageEntry>
    decreases s.len(),
{
    if s.len() == 0 {
        s
    } else if s.last().language_id@ == id {
        without_language(s.drop_last(), id)
    } else {
        without_language(s.drop_last(), id).push(s.last())
    }
}

impl WorkspaceConfig {
    /// The position of the first language with id `language_id`.
    pub fn find_language(&self, language_id: &String) -> (r: Option<usize>)
        ensures
            crate::lexicon::first_index(language_ids(self.languages@), language_id@) == match r {
                Some(i) => i as int,
                None => -1,
            },
            r is Some ==> r->0 < self.languages@.len(),
    {
        let ghost ids = language_ids(self.languages@);
        let mut i: usize = 0;
        while i < self.languages.len()
            invariant
                ids == language_ids(self.languages@),
                i <= self.languages.len(),
                forall|k: int| 0 <= k < i ==> ids[k] != language_id@,
            decreases self.languages.len() - i,
        {
            assert(ids[i as int] == self.languages@[i as int].language_id@);
            if self.languages[i].language_id == *language_id {
                proof {
                    crate::lexicon::lemma_first_index(ids, language_id@);
                    let fi = crate::lexicon::first_index(ids, language_id@);
                    if fi >= 0 && fi < i {
                        assert(ids[fi] != language_id@);
                    }
                }
                return Some(i);
            }
            i = i + 1;
        }
        proof {
            crate::lexicon::lemma_first_index(ids, language_id@);
        }
        None
    }

    /// Whether some language has `language_id` as its parent.
    pub fn has_children(&self, language_id: &String) -> (r: bool)
        ensures
            r == has_child(self.languages@, language_id@),
    {
        let mut i: usize = 0;
        while i < self.languages.len()
            invariant
                i <= self.languages.len(),
                forall|k: int|
                    0 <= k < i ==> !((#[trigger] self.languages@[k]).parent_id is Some
                        && self.languages@[k].parent_id->0@ == language_id@),
            decreases self.languages.len() - i,
        {
            match &self.languages[i].parent_id {
                Some(p) => {
                    if *p == *language_id {
                        return true;
                    }
                },
                None => {},
            }
            i = i + 1;
        }
        false
    }

    /// The position of the language that may be deleted: it exists, no language
    /// descends from it, and it is not the only one.
    pub fn deletable_language(&self, language_id: &String) -> (r: Result<usize, DeleteError>)
        ensures
            ({
                let i = crate::lexicon::first_index(language_ids(self.languages@), language_id@);
                &&& r == Err::<usize, DeleteError>(DeleteError::NotFound) <==> i == -1
                &&& r == Err::<usize, DeleteError>(DeleteError::HasChildren) <==> i >= 0 && has_child(
                    self.languages@,
                    language_id@,
                )
                &&& r == Err::<usize, DeleteError>(DeleteError::LastLanguage) <==> i >= 0
                    && !has_child(self.languages@, language_id@) && self.languages@.len() <= 1
                &&& r is Ok ==> r->Ok_0 == i
            }),
    {
        let found = self.find_language(language_id);
        match found {
            None => Err(DeleteError::NotFound),
            Some(i) => {
                if self.has_children(language_id) {
                    Err(DeleteError::HasChildren)
                } else if self.languages.len() <= 1 {
                    Err(DeleteError::LastLanguage)
                } else {
                    Ok(i)
                }
            },
        }
    }

    /// Adds a language after the others.
    pub fn add_language(&mut self, entry: LanguageEntry)
        ensures
            final(self).workspace_version == old(self).workspace_version,
            final(self).languages@ == old(self).languages@.push(entry),
    {
        self.languages.push(entry);
    }

    /// Removes every language with id `language_id`.
    pub fn remove_language(&mut self, language_id: &String)
        ensures
            final(self).workspace_version == old(self).workspace_version,
            final(self).languages@ == without_language(old(self).languages@, language_id@),
    {
        let ghost s = self.languages@;
        let mut kept: Vec<LanguageEntry> = Vec::new();
        let mut taken: Vec<LanguageEntry> = Vec::new();
        core::mem::swap(&mut self.languages, &mut taken);
        let mut rest = crate::lexicon::reversed(taken);
        assert(s.take(0) =~= Seq::<LanguageEntry>::empty());
        while rest.len() > 0
            invariant
                rest.len() <= s.len(),
                forall|k: int| 0 <= k < rest.len() ==> #[trigger] rest@[k] == s[s.len() - 1 - k],
                kept@ == without_language(s.take(s.len() - rest.len()), language_id@),
            decreases rest.len(),
        {
            let l = rest.pop().unwrap();
            proof {
                let n = s.len() - rest.len() - 1;
                assert(l == s[n]);
                assert(s.take(n + 1).drop_last() =~= s.take(n));
            }
            if l.language_id != *language_id {
                kept.push(l);
            }
        }
        assert(s.take(s.len() as int) =~= s);
        self.languages = kept;
    }
}

} // verus!
