//! Configured languages: their identity, the entries that select them,
//! and whether their grammar has been loaded.

use vstd::prelude::*;
use crate::error::GrammarError;
use crate::extension::{
    clone_entries, entry_display, entry_views, glob_is_match, glob_matches, EntryView,
    ExtensionEntry,
};
use crate::text::{join_strings, join_with, owned, replace_char, replaced, str_eq, views};
use crate::ts::grammar_clone;

verus! {

/// The extension of shared libraries on the target operating system
/// `os` (as `std::env::consts::OS` names it): `dylib` on macOS, `dll` on
/// Windows, `so` elsewhere.
pub open spec fn library_ext_for(os: Seq<char>) -> Seq<char> {
    if os == "macos"@ {
        "dylib"@
    } else if os == "windows"@ {
        "dll"@
    } else {
        "so"@
    }
}

/// The extension of grammar library files on the target operating system
/// `target_os`.
pub fn dylib_extension(target_os: &str) -> (r: &'static str)
    ensures
        r@ == library_ext_for(target_os@),
{
    if str_eq(target_os, "macos") {
        "dylib"
    } else if str_eq(target_os, "windows") {
        "dll"
    } else {
        "so"
    }
}

/// The identity of a configured language, exactly as the configuration
/// spells it (`c-sharp`, say). It is never empty.
#[derive(Debug, PartialEq, Eq)]
pub struct LanguageId(String);

impl View for LanguageId {
    type V = Seq<char>;

    closed spec fn view(&self) -> Seq<char> {
        self.0@
    }
}

/// The constructor symbol a grammar library exports for language `id`.
pub open spec fn constructor_symbol_of(id: Seq<char>) -> Seq<char> {
    "tree_sitter_"@ + replaced(id, '-', '_')
}

/// The file name of the grammar library for language `id`, with the
/// library extension `ext`.
pub open spec fn library_filename_of(id: Seq<char>, ext: Seq<char>) -> Seq<char> {
    id + "."@ + ext
}

impl LanguageId {
    /// A language id; the empty string is not one.
    pub fn new(id: &str) -> (r: Result<Self, GrammarError>)
        ensures
            match r {
                Ok(l) => l@ == id@ && id@.len() > 0,
                Err(e) => id@.len() == 0 && (e matches GrammarError::UnknownLanguage(s) && s@
                    == id@),
            },
    {
        if id.unicode_len() == 0 {
            return Err(GrammarError::UnknownLanguage(owned(id)));
        }
        Ok(LanguageId(owned(id)))
    }

    /// A language id taken as given, without the check `new` makes.
    pub fn new_unchecked(id: &str) -> (r: Self)
        ensures
            r@ == id@,
    {
        LanguageId(owned(id))
    }

    /// The id as written.
    pub fn as_str(&self) -> (r: &str)
        ensures
            r@ == self@,
    {
        self.0.as_str()
    }

    /// The id as a new string.
    pub fn to_string(&self) -> (r: String)
        ensures
            r@ == self@,
    {
        self.0.clone()
    }

    /// The grammar constructor symbol, `tree_sitter_<id>` with `-` mapped
    /// to `_` (`c-sharp` gives `tree_sitter_c_sharp`).
    pub fn constructor_symbol(&self) -> (r: String)
        ensures
            r@ == constructor_symbol_of(self@),
    {
        let mut r = owned("tree_sitter_");
        let tail = replace_char(self.0.as_str(), '-', '_');
        r.append(tail.as_str());
        r
    }

    /// The grammar library's file name, `<id>.<ext>` for the library
    /// extension `ext`.
    pub fn library_filename(&self, ext: &str) -> (r: String)
        ensures
            r@ == library_filename_of(self@, ext@),
    {
        let mut r = self.0.clone();
        r.append(".");
        r.append(ext);
        r
    }
}

impl Clone for LanguageId {
    fn clone(&self) -> (r: Self)
        ensures
            r@ == self@,
    {
        LanguageId(self.0.clone())
    }
}

/// Entry `e` selects files with extension `ext`.
pub open spec fn entry_matches_ext(e: EntryView, ext: Seq<char>) -> bool {
    e == EntryView::Ext(ext)
}

/// Entry `e` selects the file at `path` by glob.
pub open spec fn entry_matches_path(e: EntryView, path: Seq<char>) -> bool {
    match e {
        EntryView::Glob(g) => glob_matches(g, path),
        EntryView::Ext(_) => false,
    }
}

/// Some entry selects extension `ext`.
pub open spec fn any_matches_ext(es: Seq<EntryView>, ext: Seq<char>) -> bool {
    exists|i: int| 0 <= i < es.len() && #[trigger] entry_matches_ext(es[i], ext)
}

/// Some entry selects `path` by glob.
pub open spec fn any_matches_path(es: Seq<EntryView>, path: Seq<char>) -> bool {
    exists|i: int| 0 <= i < es.len() && #[trigger] entry_matches_path(es[i], path)
}

/// The displays of the entries, in order.
pub open spec fn entry_displays(es: Seq<EntryView>) -> Seq<Seq<char>> {
    es.map_values(|e: EntryView| entry_display(e))
}

/// The abstract value of a [`LanguageEntry`].
pub struct LanguageView {
    pub id: Seq<char>,
    pub extensions: Seq<EntryView>,
    pub loaded: bool,
}

/// A configured language: its id, the entries that select it, and its
/// grammar once loaded.
#[derive(Debug)]
pub struct LanguageEntry {
    id: LanguageId,
    extensions: Vec<ExtensionEntry>,
    grammar: Option<tree_sitter::Language>,
}

impl View for LanguageEntry {
    type V = LanguageView;

    closed spec fn view(&self) -> LanguageView {
        LanguageView {
            id: self.id@,
            extensions: entry_views(self.extensions@),
            loaded: self.grammar is Some,
        }
    }
}

/// The line describing language `l`: `id: entry, entry`.
pub open spec fn language_line(l: LanguageView) -> Seq<char> {
    l.id + ": "@ + join_with(entry_displays(l.extensions), ", "@)
}

/// The entries shown as strings.
pub fn display_entries(es: &Vec<ExtensionEntry>) -> (r: Vec<String>)
    ensures
        views(r@) == entry_displays(entry_views(es@)),
{
    let mut out: Vec<String> = Vec::new();
    let mut i: usize = 0;
    while i < es.len()
        invariant
            i <= es@.len(),
            views(out@) =~= entry_displays(entry_views(es@)).take(i as int),
        decreases es@.len() - i,
    {
        let d = es[i].display();
        let ghost before = out@;
        out.push(d);
        proof {
            assert(out@ =~= before.push(d));
            assert(views(out@) =~= views(before).push(d@));
        }
        i = i + 1;
    }
    proof {
        assert(entry_displays(entry_views(es@)).take(es@.len() as int) =~= entry_displays(
            entry_views(es@),
        ));
    }
    out
}

impl LanguageEntry {
    /// A language whose grammar is not loaded yet.
    pub fn new(id: LanguageId, extensions: Vec<ExtensionEntry>) -> (r: Self)
        ensures
            r@ == (LanguageView { id: id@, extensions: entry_views(extensions@), loaded: false }),
    {
        LanguageEntry { id, extensions, grammar: None }
    }

    /// A language with its grammar.
    pub fn loaded(id: LanguageId, extensions: Vec<ExtensionEntry>, grammar: tree_sitter::Language) -> (r: Self)
        ensures
            r@ == (LanguageView { id: id@, extensions: entry_views(extensions@), loaded: true }),
    {
        LanguageEntry { id, extensions, grammar: Some(grammar) }
    }

    pub fn id(&self) -> (r: &LanguageId)
        ensures
            r@ == self@.id,
    {
        &self.id
    }

    pub fn extensions(&self) -> (r: &Vec<ExtensionEntry>)
        ensures
            entry_views(r@) == self@.extensions,
    {
        &self.extensions
    }

    /// The grammar, if it has been loaded.
    pub fn grammar(&self) -> (r: Option<&tree_sitter::Language>)
        ensures
            r is Some == self@.loaded,
    {
        match &self.grammar {
            Some(g) => Some(g),
            None => None,
        }
    }

    /// The grammar, or the report that it is not loaded yet.
    pub fn language(&self) -> (r: Result<&tree_sitter::Language, GrammarError>)
        ensures
            r is Ok == self@.loaded,
            r matches Err(e) ==> (e matches GrammarError::GrammarNotLoaded(id) && id@ == self@.id),
    {
        match &self.grammar {
            Some(g) => Ok(g),
            None => Err(GrammarError::GrammarNotLoaded(self.id.to_string())),
        }
    }

    /// Whether the grammar has been loaded.
    pub fn is_loaded(&self) -> (r: bool)
        ensures
            r == self@.loaded,
    {
        self.grammar.is_some()
    }

    /// Records the loaded grammar.
    pub fn set_grammar(&mut self, grammar: tree_sitter::Language)
        ensures
            final(self)@ == (LanguageView { loaded: true, ..old(self)@ }),
    {
        self.grammar = Some(grammar);
    }

    /// Whether a plain-extension entry equals `ext` (globs are not looked at).
    pub fn matches_extension(&self, ext: &str) -> (r: bool)
        ensures
            r == any_matches_ext(self@.extensions, ext@),
    {
        let mut i: usize = 0;
        while i < self.extensions.len()
            invariant
                i <= self.extensions@.len(),
                forall|j: int|
                    0 <= j < i ==> !#[trigger] entry_matches_ext(
                        entry_views(self.extensions@)[j],
                        ext@,
                    ),
            decreases self.extensions@.len() - i,
        {
            match &self.extensions[i] {
                ExtensionEntry::Ext(s) => {
                    if str_eq(s.as_str(), ext) {
                        proof {
                            assert(entry_matches_ext(entry_views(self.extensions@)[i as int], ext@));
                        }
                        return true;
                    }
                },
                ExtensionEntry::Glob { .. } => {},
            }
            i = i + 1;
        }
        false
    }

    /// Whether a glob entry matches `path` (plain extensions are not looked at).
    pub fn matches_path(&self, path: &str) -> (r: bool)
        ensures
            r == any_matches_path(self@.extensions, path@),
    {
        let mut i: usize = 0;
        while i < self.extensions.len()
            invariant
                i <= self.extensions@.len(),
                forall|j: int|
                    0 <= j < i ==> !#[trigger] entry_matches_path(
                        entry_views(self.extensions@)[j],
                        path@,
                    ),
            decreases self.extensions@.len() - i,
        {
            match &self.extensions[i] {
                ExtensionEntry::Glob { glob } => {
                    if glob_is_match(glob.as_str(), path) {
                        proof {
                            assert(entry_matches_path(entry_views(self.extensions@)[i as int], path@));
                        }
                        return true;
                    }
                },
                ExtensionEntry::Ext(_) => {},
            }
            i = i + 1;
        }
        false
    }

    /// The line describing this language: `id: entry, entry`.
    pub fn display_line(&self) -> (r: String)
        ensures
            r@ == language_line(self@),
    {
        let mut r = self.id.to_string();
        r.append(": ");
        let shown = display_entries(&self.extensions);
        let joined = join_strings(&shown, ", ");
        r.append(joined.as_str());
        r
    }
}

impl Clone for LanguageEntry {
    fn clone(&self) -> (r: Self)
        ensures
            r@ == self@,
    {
        let grammar = match &self.grammar {
            Some(g) => Some(grammar_clone(g)),
            None => None,
        };
        LanguageEntry { id: self.id.clone(), extensions: clone_entries(&self.extensions), grammar }
    }
}

/// What a language listing shows of one language.
#[derive(Debug, PartialEq, Eq)]
pub struct LanguageSummary {
    pub id: String,
    pub loaded: bool,
    pub extensions: Vec<String>,
}

/// The listing line of a summary: `id: ext, ext`, marked when the grammar
/// is not loaded.
pub open spec fn summary_line(id: Seq<char>, loaded: bool, extensions: Seq<Seq<char>>) -> Seq<char> {
    let base = id + ": "@ + join_with(extensions, ", "@);
    if loaded {
        base
    } else {
        base + " (grammar not loaded)"@
    }
}

impl LanguageSummary {
    /// A summary from its parts.
    pub fn new<const N: usize>(id: &str, loaded: bool, extensions: [&str; N]) -> (r: Self)
        ensures
            r.id@ == id@,
            r.loaded == loaded,
            r.extensions@.len() == N,
            forall|i: int| 0 <= i < N ==> #[trigger] r.extensions@[i]@ == extensions@[i]@,
    {
        let mut exts: Vec<String> = Vec::new();
        let mut i: usize = 0;
        while i < N
            invariant
                i <= N,
                extensions@.len() == N,
                exts@.len() == i,
                forall|j: int| 0 <= j < i ==> #[trigger] exts@[j]@ == extensions@[j]@,
            decreases N - i,
        {
            exts.push(owned(extensions[i]));
            i = i + 1;
        }
        LanguageSummary { id: owned(id), loaded, extensions: exts }
    }

    /// The summary of a configured language.
    pub fn from_language(l: &LanguageEntry) -> (r: Self)
        ensures
            r.id@ == l@.id,
            r.loaded == l@.loaded,
            views(r.extensions@) == entry_displays(l@.extensions),
    {
        LanguageSummary {
            id: l.id().to_string(),
            loaded: l.is_loaded(),
            extensions: display_entries(l.extensions()),
        }
    }

    /// The listing line: `id: ext, ext`, followed by ` (grammar not
    /// loaded)` when the grammar is not loaded.
    pub fn display_line(&self) -> (r: String)
        ensures
            r@ == summary_line(self.id@, self.loaded, views(self.extensions@)),
    {
        let mut r = self.id.clone();
        r.append(": ");
        let joined = join_strings(&self.extensions, ", ");
        r.append(joined.as_str());
        if !self.loaded {
            r.append(" (grammar not loaded)");
        }
        r
    }
}

} // verus!
