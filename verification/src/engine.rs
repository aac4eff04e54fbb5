//! The grammar engine: the configured languages, language resolution for
//! a path, and lazy grammar loading with a per-process cache.

use vstd::prelude::*;
use crate::error::{GrammarError, LoadGrammarError};
use crate::extension::ExtensionMap;
use crate::language::{
    any_matches_ext, any_matches_path, dylib_extension, library_ext_for,
    library_filename_of,
    constructor_symbol_of, LanguageEntry, LanguageId, LanguageSummary, LanguageView,
};
use crate::order::{sort_strings, sorted};
use crate::paths::{extension, joined, path_extension};
use crate::text::{debug_quote, debug_str, opt_view, owned, quote_list, quoted_list, str_eq, views};

verus! {

/// The id a language is looked up by: exactly as configured.
pub open spec fn key_of(l: LanguageView) -> Seq<char> {
    l.id
}

/// No two languages share an id.
pub open spec fn keys_unique(s: Seq<LanguageView>) -> bool {
    forall|i: int, j: int| 0 <= i < j < s.len() ==> key_of(s[i]) != key_of(s[j])
}

/// Whether some language has id `key`.
pub open spec fn has_key(s: Seq<LanguageView>, key: Seq<char>) -> bool {
    exists|i: int| 0 <= i < s.len() && #[trigger] key_of(s[i]) == key
}

/// `l` added to `s`, replacing the language with the same id if any.
pub open spec fn upsert(s: Seq<LanguageView>, l: LanguageView) -> Seq<LanguageView> {
    if has_key(s, key_of(l)) {
        let i = choose|i: int| 0 <= i < s.len() && #[trigger] key_of(s[i]) == key_of(l);
        s.update(i, l)
    } else {
        s.push(l)
    }
}

/// The languages of `ls` added one after another.
pub open spec fn build(ls: Seq<LanguageView>) -> Seq<LanguageView>
    decreases ls.len(),
{
    if ls.len() == 0 {
        Seq::empty()
    } else {
        upsert(build(ls.drop_last()), ls.last())
    }
}

/// The languages a language table declares, in order; an empty id is not
/// a language and is left out.
pub open spec fn config_views(m: Seq<(Seq<char>, Seq<crate::extension::EntryView>)>) -> Seq<LanguageView>
    decreases m.len(),
{
    if m.len() == 0 {
        Seq::empty()
    } else {
        let rest = config_views(m.drop_last());
        if m.last().0.len() == 0 {
            rest
        } else {
            rest.push(LanguageView { id: m.last().0, extensions: m.last().1, loaded: false })
        }
    }
}

/// The abstract values of a sequence of languages.
pub open spec fn language_views(s: Seq<LanguageEntry>) -> Seq<LanguageView> {
    s.map_values(|l: LanguageEntry| l@)
}

/// The index of the language with id `key`, if any.
pub open spec fn key_index(s: Seq<LanguageView>, key: Seq<char>) -> Option<int> {
    if has_key(s, key) {
        Some(choose|i: int| 0 <= i < s.len() && #[trigger] key_of(s[i]) == key)
    } else {
        None
    }
}

/// The first language from index `i` on with a plain-extension entry `ext`.
pub open spec fn first_ext_match(s: Seq<LanguageView>, ext: Seq<char>, i: int) -> Option<int>
    decreases s.len() - i,
{
    if i < 0 || i >= s.len() {
        None
    } else if any_matches_ext(s[i].extensions, ext) {
        Some(i)
    } else {
        first_ext_match(s, ext, i + 1)
    }
}

/// The first language from index `i` on with a glob entry matching `path`.
pub open spec fn first_path_match(s: Seq<LanguageView>, path: Seq<char>, i: int) -> Option<int>
    decreases s.len() - i,
{
    if i < 0 || i >= s.len() {
        None
    } else if any_matches_path(s[i].extensions, path) {
        Some(i)
    } else {
        first_path_match(s, path, i + 1)
    }
}

/// The language inferred for `path`: the first whose plain extensions hold
/// the path's extension, else the first whose globs match the whole path.
pub open spec fn inferred_index(s: Seq<LanguageView>, path: Seq<char>) -> Option<int> {
    let by_ext = match extension(path) {
        Some(e) => first_ext_match(s, e, 0),
        None => None,
    };
    match by_ext {
        Some(i) => Some(i),
        None => first_path_match(s, path, 0),
    }
}

/// The ids of the loaded languages, in order.
pub open spec fn loaded_ids(s: Seq<LanguageView>) -> Seq<Seq<char>>
    decreases s.len(),
{
    if s.len() == 0 {
        Seq::empty()
    } else if s.last().loaded {
        loaded_ids(s.drop_last()).push(s.last().id)
    } else {
        loaded_ids(s.drop_last())
    }
}

/// The language `resolve` picks for the file at `path`: the one
/// `requested` names, or else the one inferred from the path.
pub open spec fn resolved_index(s: Seq<LanguageView>, path: Seq<char>, requested: Option<Seq<char>>) -> Option<int> {
    match requested {
        Some(id) => key_index(s, id),
        None => inferred_index(s, path),
    }
}

/// `e` is how `resolve` reports that no language fits: an unknown
/// requested id, or a path no language matches.
pub open spec fn resolve_error(e: GrammarError, path: Seq<char>, requested: Option<Seq<char>>) -> bool {
    match requested {
        Some(id) => e matches GrammarError::UnknownLanguage(x) && x@ == id,
        None => e matches GrammarError::LanguageInference(p) && p@ == path,
    }
}

/// An optional string as written in messages: `Some("x")` or `None`.
pub open spec fn quoted_option(x: Option<Seq<char>>) -> Seq<char> {
    match x {
        Some(t) => "Some("@ + debug_str(t) + ")"@,
        None => "None"@,
    }
}

/// The message a client is shown for error `e` with `ids` the languages
/// it can ask for: a language that could not be resolved is named, with
/// the list of those ids and what to do instead; any other error has its
/// own message.
pub open spec fn refusal_text(e: GrammarError, ids: Seq<Seq<char>>) -> Seq<char> {
    match e {
        GrammarError::UnknownLanguage(id) => "unknown language '"@ + id@
            + "'. Supported languages: "@ + quoted_list(ids)
            + ". Omit `language` to infer it from the file extension instead."@,
        GrammarError::LanguageInference(path) => "could not infer a language for '"@ + path@
            + "' (extension: "@ + quoted_option(extension(path@))
            + "). Pass `language` explicitly. Supported languages: "@ + quoted_list(ids) + "."@,
        _ => e.message_spec(),
    }
}

/// The message a client is shown for `e`, with `ids` the languages it can
/// ask for.
pub fn refusal_message(e: &GrammarError, ids: &Vec<String>) -> (r: String)
    ensures
        r@ == refusal_text(*e, views(ids@)),
{
    match e {
        GrammarError::UnknownLanguage(id) => {
            let mut r = owned("unknown language '");
            r.append(id.as_str());
            r.append("'. Supported languages: ");
            let list = quote_list(ids);
            r.append(list.as_str());
            r.append(". Omit `language` to infer it from the file extension instead.");
            r
        },
        GrammarError::LanguageInference(path) => {
            let mut r = owned("could not infer a language for '");
            r.append(path.as_str());
            r.append("' (extension: ");
            match path_extension(path.as_str()) {
                Some(x) => {
                    r.append("Some(");
                    let q = debug_quote(x.as_str());
                    r.append(q.as_str());
                    r.append(")");
                },
                None => {
                    r.append("None");
                },
            }
            r.append("). Pass `language` explicitly. Supported languages: ");
            let list = quote_list(ids);
            r.append(list.as_str());
            r.append(".");
            r
        },
        _ => e.message(),
    }
}

/// A grammar library the engine needs opened: the language, where its
/// library lies and which symbol constructs its grammar.
#[derive(Debug)]
pub struct LoadRequest {
    pub id: String,
    pub path: String,
    pub symbol: String,
}

/// What loading a language takes: nothing (it is loaded already), nothing
/// possible (it is not configured), or opening a grammar library.
#[derive(Debug)]
pub enum LoadPlan {
    Ready(LanguageEntry),
    Failed(GrammarError),
    Open(LoadRequest),
}

/// `s` with the language at `i` marked loaded.
pub open spec fn mark_loaded(s: Seq<LanguageView>, i: int) -> Seq<LanguageView> {
    s.update(i, LanguageView { loaded: true, ..s[i] })
}

/// `req` asks for the grammar library of language `id` with libraries
/// under `dir` whose file extension is `ext`.
pub open spec fn request_for(req: LoadRequest, dir: Seq<char>, ext: Seq<char>, id: Seq<char>) -> bool {
    &&& req.id@ == id
    &&& req.path@ == joined(dir, library_filename_of(id, ext))
    &&& req.symbol@ == constructor_symbol_of(id)
}

/// The library request for language `l` with libraries under `dir`
/// whose file extension is `ext`.
pub open spec fn request_matches(req: LoadRequest, dir: Seq<char>, ext: Seq<char>, l: LanguageView) -> bool {
    request_for(req, dir, ext, l.id)
}

/// What loading language `i` of `old` (libraries under `dir`, with file
/// extension `ext`) ends in:
/// a loaded language is handed back as it is; otherwise its grammar is
/// kept and the language handed back loaded, or the failure is reported
/// with the library's path and nothing changes.
pub open spec fn load_outcome(
    old: Seq<LanguageView>,
    new: Seq<LanguageView>,
    dir: Seq<char>,
    ext: Seq<char>,
    i: int,
    r: Result<LanguageEntry, GrammarError>,
) -> bool {
    if old[i].loaded {
        new == old && (r matches Ok(l) && l@ == old[i])
    } else {
        match r {
            Ok(l) => new == mark_loaded(old, i) && l@ == new[i],
            Err(e) => new == old && (e matches GrammarError::LoadGrammar { path, .. } && path@
                == joined(dir, library_filename_of(old[i].id, ext))),
        }
    }
}

/// `r` is what opening the library of language `id` under `dir` (file
/// extension `ext`) gave:
/// the library was asked for once, and it gave a grammar (`r` is `Ok`)
/// or the failure `r` reports.
pub open spec fn opened_for(
    open: spec_fn(LoadRequest, Result<tree_sitter::Language, LoadGrammarError>) -> bool,
    dir: Seq<char>,
    ext: Seq<char>,
    id: Seq<char>,
    r: Result<LanguageEntry, GrammarError>,
) -> bool {
    exists|req: LoadRequest|
        #[trigger] request_for(req, dir, ext, id) && match r {
            Ok(_) => exists|g: tree_sitter::Language| open(req, Ok(g)),
            Err(e) => e matches GrammarError::LoadGrammar { source, .. } && open(req, Err(source)),
        }
}

/// Opening the library of language `id` under `dir` (file extension
/// `ext`) was asked once and
/// gave a grammar (`loaded`) or a failure (not `loaded`).
pub open spec fn open_gave(
    open: spec_fn(LoadRequest, Result<tree_sitter::Language, LoadGrammarError>) -> bool,
    dir: Seq<char>,
    ext: Seq<char>,
    id: Seq<char>,
    loaded: bool,
) -> bool {
    exists|req: LoadRequest|
        #[trigger] request_for(req, dir, ext, id) && if loaded {
            exists|g: tree_sitter::Language| open(req, Ok(g))
        } else {
            exists|e: LoadGrammarError| open(req, Err(e))
        }
}

/// The configured languages and where their grammar libraries lie.
#[derive(Debug)]
pub struct GrammarEngine {
    grammar_dir: String,
    library_ext: String,
    languages: Vec<LanguageEntry>,
}

proof fn lemma_upsert(s: Seq<LanguageView>, l: LanguageView)
    requires
        keys_unique(s),
    ensures
        keys_unique(upsert(s, l)),
        has_key(upsert(s, l), key_of(l)),
{
    if has_key(s, key_of(l)) {
        let i = choose|i: int| 0 <= i < s.len() && #[trigger] key_of(s[i]) == key_of(l);
        let t = s.update(i, l);
        assert(key_of(t[i]) == key_of(l));
        assert forall|a: int, b: int| 0 <= a < b < t.len() implies key_of(t[a]) != key_of(t[b]) by {
            if a == i {
                assert(key_of(s[b]) != key_of(s[i]));
            } else if b == i {
                assert(key_of(s[a]) != key_of(s[i]));
            }
        }
    } else {
        let t = s.push(l);
        assert(key_of(t[s.len() as int]) == key_of(l));
        assert forall|a: int, b: int| 0 <= a < b < t.len() implies key_of(t[a]) != key_of(t[b]) by {
            if b == s.len() {
                assert(key_of(t[a]) == key_of(s[a]));
            }
        }
    }
}

impl GrammarEngine {
    #[verifier::type_invariant]
    closed spec fn inv(self) -> bool {
        keys_unique(language_views(self.languages@))
    }

    /// The configured languages, in order.
    pub closed spec fn languages(&self) -> Seq<LanguageView> {
        language_views(self.languages@)
    }

    /// The directory holding grammar libraries.
    pub closed spec fn grammar_dir(&self) -> Seq<char> {
        self.grammar_dir@
    }

    /// The file extension of grammar libraries.
    pub closed spec fn library_ext(&self) -> Seq<char> {
        self.library_ext@
    }

    /// Ids never repeat.
    pub fn keys_are_unique(&self)
        ensures
            keys_unique(self.languages()),
    {
        proof {
            use_type_invariant(self);
        }
    }

    fn add(languages: &mut Vec<LanguageEntry>, l: LanguageEntry)
        requires
            keys_unique(language_views(old(languages)@)),
        ensures
            language_views(final(languages)@) == upsert(language_views(old(languages)@), l@),
            keys_unique(language_views(final(languages)@)),
    {
        let ghost s = language_views(languages@);
        proof {
            lemma_upsert(s, l@);
        }
        let key = owned(l.id().as_str());
        let mut i: usize = 0;
        while i < languages.len()
            invariant
                s == language_views(languages@),
                s == language_views(old(languages)@),
                keys_unique(s),
                key@ == key_of(l@),
                i <= languages@.len(),
                forall|j: int| 0 <= j < i ==> key_of(#[trigger] s[j]) != key@,
            decreases languages@.len() - i,
        {
            let k = owned(languages[i].id().as_str());
            if str_eq(k.as_str(), key.as_str()) {
                proof {
                    assert(key_of(s[i as int]) == key_of(l@));
                    assert(has_key(s, key_of(l@)));
                    let c = choose|c: int| 0 <= c < s.len() && #[trigger] key_of(s[c]) == key_of(l@);
                    assert(c == i);
                    assert(upsert(s, l@) == s.update(i as int, l@));
                }
                let ghost lv = l@;
                languages.set(i, l);
                proof {
                    assert(language_views(languages@) =~= s.update(i as int, lv));
                }
                return;
            }
            i = i + 1;
        }
        languages.push(l);
        proof {
            assert(language_views(languages@) =~= s.push(l@));
        }
    }

    fn find_key(&self, key: &str) -> (r: Option<usize>)
        ensures
            match r {
                Some(i) => i < self.languages().len() && key_of(self.languages()[i as int]) == key@
                    && key_index(self.languages(), key@) == Some(i as int),
                None => key_index(self.languages(), key@) is None,
            },
    {
        proof {
            use_type_invariant(self);
        }
        let ghost s = self.languages();
        let mut i: usize = 0;
        while i < self.languages.len()
            invariant
                s == language_views(self.languages@),
                keys_unique(s),
                i <= self.languages@.len(),
                forall|j: int| 0 <= j < i ==> key_of(#[trigger] s[j]) != key@,
            decreases self.languages@.len() - i,
        {
            let k = owned(self.languages[i].id().as_str());
            if str_eq(k.as_str(), key) {
                proof {
                    assert(key_of(s[i as int]) == key@);
                    assert(has_key(s, key@));
                    let c = choose|c: int| 0 <= c < s.len() && #[trigger] key_of(s[c]) == key@;
                    assert(c == i);
                }
                return Some(i);
            }
            i = i + 1;
        }
        None
    }

    /// The configured language whose id is `id`.
    pub fn language(&self, id: &str) -> (r: Option<&LanguageEntry>)
        ensures
            match key_index(self.languages(), id@) {
                Some(i) => r matches Some(l) && l@ == self.languages()[i],
                None => r is None,
            },
    {
        let key = owned(id);
        match self.find_key(key.as_str()) {
            Some(i) => Some(&self.languages[i]),
            None => None,
        }
    }

    /// An engine over the languages a configuration declares, none of them
    /// loaded; grammar libraries are looked for in `grammar_dir`, with the
    /// shared-library extension of `target_os`. Nothing is opened here.
    pub fn load(ext_map: ExtensionMap, grammar_dir: &str, target_os: &str) -> (r: Self)
        ensures
            r.languages() == build(config_views(ext_map@)),
            r.grammar_dir() == grammar_dir@,
            r.library_ext() == library_ext_for(target_os@),
    {
        let pairs = ext_map.into_pairs();
        let ghost m = crate::extension::map_view(pairs@);
        let mut ls: Vec<LanguageEntry> = Vec::new();
        let mut k: usize = 0;
        while k < pairs.len()
            invariant
                m == crate::extension::map_view(pairs@),
                k <= pairs@.len(),
                language_views(ls@) == config_views(m.take(k as int)),
            decreases pairs@.len() - k,
        {
            proof {
                assert(m.take(k + 1).drop_last() =~= m.take(k as int));
                assert(m.take(k + 1).last() == m[k as int]);
            }
            match LanguageId::new(pairs[k].0.as_str()) {
                Ok(id) => {
                    let exts = crate::extension::clone_entries(&pairs[k].1);
                    let l = LanguageEntry::new(id, exts);
                    let ghost before = ls@;
                    ls.push(l);
                    proof {
                        assert(language_views(ls@) =~= language_views(before).push(l@));
                    }
                },
                Err(_) => {},
            }
            k = k + 1;
        }
        proof {
            assert(m.take(pairs@.len() as int) =~= m);
        }
        let mut engine = Self::from_languages(ls);
        proof {
            use_type_invariant(&engine);
        }
        engine.grammar_dir = owned(grammar_dir);
        engine.library_ext = owned(dylib_extension(target_os));
        engine
    }

    /// An engine over the languages a configuration declares with every
    /// grammar opened at once: each library is asked for once, in order,
    /// and a language whose library gives no grammar stays unloaded.
    pub fn load_default<F: Fn(&LoadRequest) -> Result<tree_sitter::Language, LoadGrammarError>>(
        ext_map: ExtensionMap,
        grammar_dir: &str,
        target_os: &str,
        open: &F,
    ) -> (r: Self)
        requires
            forall|req: &LoadRequest| open.requires((req,)),
        ensures
            r.grammar_dir() == grammar_dir@,
            r.library_ext() == library_ext_for(target_os@),
            only_loaded_more(build(config_views(ext_map@)), r.languages()),
            forall|i: int|
                0 <= i < r.languages().len() ==> open_gave(
                    |req: LoadRequest, o: Result<tree_sitter::Language, LoadGrammarError>|
                        open.ensures((&req,), o),
                    grammar_dir@,
                    library_ext_for(target_os@),
                    r.languages()[i].id,
                    #[trigger] r.languages()[i].loaded,
                ),
    {
        let ghost m = ext_map@;
        let mut engine = Self::load(ext_map, grammar_dir, target_os);
        let ghost ext = library_ext_for(target_os@);
        let ghost base = engine.languages();
        proof {
            law_configured_languages_start_unloaded(m);
            use_type_invariant(&engine);
        }
        let n = engine.languages.len();
        let mut i: usize = 0;
        while i < n
            invariant
                n == base.len(),
                i <= n,
                keys_unique(base),
                forall|j: int| 0 <= j < base.len() ==> !(#[trigger] base[j]).loaded,
                engine.languages().len() == n,
                engine.grammar_dir() == grammar_dir@,
                engine.library_ext() == ext,
                ext == library_ext_for(target_os@),
                only_loaded_more(base, engine.languages()),
                forall|j: int| i <= j < n ==> #[trigger] engine.languages()[j] == base[j],
                forall|j: int|
                    0 <= j < i ==> open_gave(
                        |req: LoadRequest, o: Result<tree_sitter::Language, LoadGrammarError>|
                            open.ensures((&req,), o),
                        grammar_dir@,
                        ext,
                        base[j].id,
                        #[trigger] engine.languages()[j].loaded,
                    ),
                forall|req: &LoadRequest| open.requires((req,)),
            decreases n - i,
        {
            let ghost cur = engine.languages();
            let id = engine.languages[i].id().to_string();
            proof {
                assert(cur[i as int] == base[i as int]);
                lemma_only_loaded_more_keeps_lookups(base, cur, key_of(base[i as int]));
                lemma_key_index_unique(base, i as int);
                assert(id@ == key_of(base[i as int]));
            }
            let outcome = engine.load_language(id.as_str(), open);
            proof {
                lemma_load_outcome_only_loads(cur, engine.languages(), grammar_dir@, ext, i as int, outcome);
                lemma_only_loaded_more_transitive(base, cur, engine.languages());
                assert forall|j: int| i < j < n implies #[trigger] engine.languages()[j] == base[j] by {
                    if engine.languages() != cur {
                        assert(engine.languages() == mark_loaded(cur, i as int));
                    }
                }
                assert forall|j: int| 0 <= j < i implies #[trigger] engine.languages()[j] == cur[j] by {
                    if engine.languages() != cur {
                        assert(engine.languages() == mark_loaded(cur, i as int));
                    }
                }
                let ghost f = |req: LoadRequest, o: Result<tree_sitter::Language, LoadGrammarError>|
                    open.ensures((&req,), o);
                assert(opened_for(f, grammar_dir@, ext, cur[i as int].id, outcome));
                let req = choose|req: LoadRequest|
                    #[trigger] request_for(req, grammar_dir@, ext, cur[i as int].id) && match outcome {
                        Ok(_) => exists|g: tree_sitter::Language| f(req, Ok(g)),
                        Err(e) => e matches GrammarError::LoadGrammar { source, .. } && f(req, Err(source)),
                    };
                match outcome {
                    Ok(_) => {
                        assert(engine.languages()[i as int].loaded);
                    },
                    Err(e) => {
                        assert(!engine.languages()[i as int].loaded);
                        match e {
                            GrammarError::LoadGrammar { source, .. } => {
                                assert(f(req, Err(source)));
                            },
                            _ => {},
                        }
                    },
                }
                assert(open_gave(f, grammar_dir@, ext, base[i as int].id, engine.languages()[i as int].loaded));
            }
            i = i + 1;
        }
        engine
    }

    /// Every configured id, sorted: the languages a client can ask
    /// for.
    pub fn available_ids(&self) -> (r: Vec<String>)
        ensures
            r@.len() == self.languages().len(),
            sorted(views(r@)),
            forall|k: Seq<char>| #[trigger] views(r@).contains(k) <==> has_key(self.languages(), k),
    {
        let ghost s = self.languages();
        let mut keys: Vec<String> = Vec::new();
        let mut i: usize = 0;
        while i < self.languages.len()
            invariant
                s == language_views(self.languages@),
                i <= self.languages@.len(),
                keys@.len() == i,
                forall|j: int| 0 <= j < i ==> #[trigger] keys@[j]@ == key_of(s[j]),
            decreases self.languages@.len() - i,
        {
            keys.push(owned(self.languages[i].id().as_str()));
            i = i + 1;
        }
        proof {
            assert forall|k: Seq<char>| #[trigger] views(keys@).contains(k) <==> has_key(s, k) by {
                if views(keys@).contains(k) {
                    let j = choose|j: int| 0 <= j < keys@.len() && views(keys@)[j] == k;
                    assert(key_of(s[j]) == k);
                }
                if has_key(s, k) {
                    let j = choose|j: int| 0 <= j < s.len() && #[trigger] key_of(s[j]) == k;
                    assert(views(keys@)[j] == k);
                }
            }
        }
        sort_strings(keys)
    }

    /// The ids of the languages whose grammar is loaded, in order.
    pub fn loaded_language_ids(&self) -> (r: Vec<String>)
        ensures
            views(r@) == loaded_ids(self.languages()),
    {
        let ghost s = self.languages();
        let mut out: Vec<String> = Vec::new();
        let mut i: usize = 0;
        while i < self.languages.len()
            invariant
                s == language_views(self.languages@),
                i <= self.languages@.len(),
                views(out@) == loaded_ids(s.take(i as int)),
            decreases self.languages@.len() - i,
        {
            proof {
                assert(s.take(i + 1).drop_last() =~= s.take(i as int));
                assert(s.take(i + 1).last() == s[i as int]);
            }
            if self.languages[i].is_loaded() {
                let id = self.languages[i].id().to_string();
                let ghost before = out@;
                out.push(id);
                proof {
                    assert(views(out@) =~= views(before).push(id@));
                }
            }
            i = i + 1;
        }
        proof {
            assert(s.take(s.len() as int) =~= s);
        }
        out
    }

    /// A summary of each configured language, in order.
    pub fn language_summaries(&self) -> (r: Vec<LanguageSummary>)
        ensures
            r@.len() == self.languages().len(),
            forall|i: int|
                0 <= i < r@.len() ==> {
                    &&& (#[trigger] r@[i]).id@ == self.languages()[i].id
                    &&& r@[i].loaded == self.languages()[i].loaded
                    &&& views(r@[i].extensions@) == crate::language::entry_displays(
                        self.languages()[i].extensions,
                    )
                },
    {
        let ghost s = self.languages();
        let mut out: Vec<LanguageSummary> = Vec::new();
        let mut i: usize = 0;
        while i < self.languages.len()
            invariant
                s == language_views(self.languages@),
                i <= self.languages@.len(),
                out@.len() == i,
                forall|j: int|
                    0 <= j < i ==> {
                        &&& (#[trigger] out@[j]).id@ == s[j].id
                        &&& out@[j].loaded == s[j].loaded
                        &&& views(out@[j].extensions@) == crate::language::entry_displays(
                            s[j].extensions,
                        )
                    },
            decreases self.languages@.len() - i,
        {
            out.push(LanguageSummary::from_language(&self.languages[i]));
            i = i + 1;
        }
        out
    }

    fn first_ext_index(&self, ext: &str) -> (r: Option<usize>)
        ensures
            match r {
                Some(i) => first_ext_match(self.languages(), ext@, 0) == Some(i as int) && i
                    < self.languages().len(),
                None => first_ext_match(self.languages(), ext@, 0) is None,
            },
    {
        let ghost s = self.languages();
        let mut i: usize = 0;
        while i < self.languages.len()
            invariant
                s == language_views(self.languages@),
                i <= self.languages@.len(),
                first_ext_match(s, ext@, 0) == first_ext_match(s, ext@, i as int),
            decreases self.languages@.len() - i,
        {
            if self.languages[i].matches_extension(ext) {
                return Some(i);
            }
            i = i + 1;
        }
        None
    }

    fn first_path_index(&self, path: &str) -> (r: Option<usize>)
        ensures
            match r {
                Some(i) => first_path_match(self.languages(), path@, 0) == Some(i as int) && i
                    < self.languages().len(),
                None => first_path_match(self.languages(), path@, 0) is None,
            },
    {
        let ghost s = self.languages();
        let mut i: usize = 0;
        while i < self.languages.len()
            invariant
                s == language_views(self.languages@),
                i <= self.languages@.len(),
                first_path_match(s, path@, 0) == first_path_match(s, path@, i as int),
            decreases self.languages@.len() - i,
        {
            if self.languages[i].matches_path(path) {
                return Some(i);
            }
            i = i + 1;
        }
        None
    }

    /// The language for the file at `path`: the one `requested` names (by
    /// id), or else the one inferred from the path, by extension
    /// first and by glob after.
    pub fn resolve(&self, path: &str, requested: Option<&str>) -> (r: Result<&LanguageEntry, GrammarError>)
        ensures
            match resolved_index(self.languages(), path@, opt_view(requested)) {
                Some(i) => 0 <= i < self.languages().len() && (r matches Ok(l) && l@
                    == self.languages()[i]),
                None => r matches Err(e) && resolve_error(e, path@, opt_view(requested)),
            },
    {
        if let Some(id) = requested {
            return match self.language(id) {
                Some(l) => Ok(l),
                None => Err(GrammarError::UnknownLanguage(owned(id))),
            };
        }
        if let Some(ext) = path_extension(path) {
            if let Some(i) = self.first_ext_index(ext.as_str()) {
                return Ok(&self.languages[i]);
            }
        }
        match self.first_path_index(path) {
            Some(i) => Ok(&self.languages[i]),
            None => Err(GrammarError::LanguageInference(owned(path))),
        }
    }

    /// What loading language `id` takes.
    pub fn plan_load(&self, id: &str) -> (r: LoadPlan)
        ensures
            match key_index(self.languages(), id@) {
                None => r matches LoadPlan::Failed(GrammarError::UnknownLanguage(x)) && x@ == id@,
                Some(i) => if self.languages()[i].loaded {
                    r matches LoadPlan::Ready(l) && l@ == self.languages()[i]
                } else {
                    r matches LoadPlan::Open(req) && request_matches(
                        req,
                        self.grammar_dir(),
                        self.library_ext(),
                        self.languages()[i],
                    )
                },
            },
    {
        let key = owned(id);
        match self.find_key(key.as_str()) {
            None => LoadPlan::Failed(GrammarError::UnknownLanguage(owned(id))),
            Some(i) => {
                let l = &self.languages[i];
                if l.is_loaded() {
                    LoadPlan::Ready(l.clone())
                } else {
                    LoadPlan::Open(
                        crate::loader::library_request(
                            self.grammar_dir.as_str(),
                            self.library_ext.as_str(),
                            l.id(),
                        ),
                    )
                }
            },
        }
    }

    /// Records the outcome of opening the library `request` asked for: the
    /// grammar is kept for the language, or the failure is reported with
    /// the library's path.
    pub fn finish_load(
        &mut self,
        request: &LoadRequest,
        outcome: Result<tree_sitter::Language, LoadGrammarError>,
    ) -> (r: Result<LanguageEntry, GrammarError>)
        ensures
            match outcome {
                Err(e) => final(self).languages() == old(self).languages() && (r matches Err(
                    GrammarError::LoadGrammar { path, source },
                ) && path@ == request.path@ && source == e),
                Ok(_) => match key_index(old(self).languages(), request.id@) {
                    None => final(self).languages() == old(self).languages() && (r matches Err(
                        GrammarError::UnknownLanguage(x),
                    ) && x@ == request.id@),
                    Some(i) => final(self).languages() == mark_loaded(old(self).languages(), i)
                        && (r matches Ok(l) && l@ == final(self).languages()[i]),
                },
            },
            final(self).grammar_dir() == old(self).grammar_dir(),
            final(self).library_ext() == old(self).library_ext(),
    {
        let grammar = match outcome {
            Err(source) => {
                return Err(GrammarError::LoadGrammar { path: request.path.clone(), source });
            },
            Ok(g) => g,
        };
        let key = owned(request.id.as_str());
        match self.find_key(key.as_str()) {
            None => Err(GrammarError::UnknownLanguage(request.id.clone())),
            Some(i) => {
                proof {
                    use_type_invariant(&*self);
                }
                let ghost s = self.languages();
                let mut langs: Vec<LanguageEntry> = Vec::new();
                std::mem::swap(&mut langs, &mut self.languages);
                let mut entry = langs.remove(i);
                entry.set_grammar(grammar);
                let result = entry.clone();
                langs.insert(i, entry);
                proof {
                    assert(language_views(langs@) =~= mark_loaded(s, i as int));
                    assert forall|a: int, b: int| 0 <= a < b < langs@.len() implies key_of(
                        language_views(langs@)[a],
                    ) != key_of(language_views(langs@)[b]) by {
                        assert(key_of(language_views(langs@)[a]) == key_of(s[a]));
                        assert(key_of(language_views(langs@)[b]) == key_of(s[b]));
                    }
                }
                std::mem::swap(&mut langs, &mut self.languages);
                Ok(result)
            },
        }
    }

    /// Loads language `id`'s grammar on first use and keeps it for later
    /// calls. `open` opens the library a request names; it is called only
    /// for a configured language whose grammar is not loaded yet.
    pub fn load_language<F: Fn(&LoadRequest) -> Result<tree_sitter::Language, LoadGrammarError>>(
        &mut self,
        id: &str,
        open: &F,
    ) -> (r: Result<LanguageEntry, GrammarError>)
        requires
            forall|req: &LoadRequest| open.requires((req,)),
        ensures
            final(self).grammar_dir() == old(self).grammar_dir(),
            final(self).library_ext() == old(self).library_ext(),
            match key_index(old(self).languages(), id@) {
                None => final(self).languages() == old(self).languages() && (r matches Err(
                    GrammarError::UnknownLanguage(x),
                ) && x@ == id@),
                Some(i) => load_outcome(
                    old(self).languages(),
                    final(self).languages(),
                    old(self).grammar_dir(),
                    old(self).library_ext(),
                    i,
                    r,
                ) && (!old(self).languages()[i].loaded ==> opened_for(
                    |req: LoadRequest, o: Result<tree_sitter::Language, LoadGrammarError>|
                        open.ensures((&req,), o),
                    old(self).grammar_dir(),
                    old(self).library_ext(),
                    old(self).languages()[i].id,
                    r,
                )),
            },
    {
        let ghost s = self.languages();
        let ghost dir = self.grammar_dir();
        let ghost ext = self.library_ext();
        match self.plan_load(id) {
            LoadPlan::Ready(l) => Ok(l),
            LoadPlan::Failed(e) => Err(e),
            LoadPlan::Open(req) => {
                let outcome = open(&req);
                let ghost o = outcome;
                proof {
                    assert(req.id@ == id@);
                }
                let r = self.finish_load(&req, outcome);
                proof {
                    let i = key_index(s, id@)->0;
                    assert(request_for(req, dir, ext, s[i].id));
                    match o {
                        Ok(g) => {
                            assert(open.ensures((&req,), Ok(g)));
                        },
                        Err(e) => {
                            assert(open.ensures((&req,), Err(e)));
                        },
                    }
                }
                r
            },
        }
    }

    /// The language for `path` (as [`GrammarEngine::resolve`] picks it),
    /// with its grammar loaded.
    pub fn resolve_language<F: Fn(&LoadRequest) -> Result<tree_sitter::Language, LoadGrammarError>>(
        &mut self,
        path: &str,
        language: Option<&str>,
        open: &F,
    ) -> (r: Result<LanguageEntry, GrammarError>)
        requires
            forall|req: &LoadRequest| open.requires((req,)),
        ensures
            final(self).grammar_dir() == old(self).grammar_dir(),
            final(self).library_ext() == old(self).library_ext(),
            r matches Ok(l) ==> l@.loaded,
            match resolved_index(old(self).languages(), path@, opt_view(language)) {
                None => final(self).languages() == old(self).languages() && (r matches Err(e)
                    && resolve_error(e, path@, opt_view(language))),
                Some(i) => load_outcome(
                    old(self).languages(),
                    final(self).languages(),
                    old(self).grammar_dir(),
                    old(self).library_ext(),
                    i,
                    r,
                ),
            },
    {
        let ghost s = self.languages();
        self.keys_are_unique();
        let id = match self.resolve(path, language) {
            Ok(l) => l.id().to_string(),
            Err(e) => {
                return Err(e);
            },
        };
        proof {
            let i = resolved_index(s, path@, opt_view(language))->0;
            lemma_key_index_unique(s, i);
            assert(id@ == key_of(s[i]));
        }
        self.load_language(id.as_str(), open)
    }

    /// An engine over `languages`, none of which is loaded unless given so;
    /// a later language replaces an earlier one with the same id.
    pub fn from_languages(languages: Vec<LanguageEntry>) -> (r: Self)
        ensures
            r.languages() == build(language_views(languages@)),
            r.grammar_dir() == Seq::<char>::empty(),
            r.library_ext() == Seq::<char>::empty(),
    {
        let mut out: Vec<LanguageEntry> = Vec::new();
        let mut input = languages;
        let ghost all = language_views(input@);
        let mut taken: usize = 0;
        let n = input.len();
        proof {
            assert(language_views(out@) =~= build(all.take(0)));
            assert(language_views(input@) =~= all.skip(0));
        }
        while input.len() > 0
            invariant
                taken + input@.len() == all.len(),
                all.len() == n,
                language_views(input@) =~= all.skip(taken as int),
                language_views(out@) == build(all.take(taken as int)),
                keys_unique(language_views(out@)),
            decreases input@.len(),
        {
            let ghost before = input@;
            let l = input.remove(0);
            proof {
                assert(input@ =~= before.remove(0));
                assert(l@ == all[taken as int]) by {
                    assert(language_views(before)[0] == all.skip(taken as int)[0]);
                }
                assert(all.take(taken + 1).drop_last() =~= all.take(taken as int));
                assert(language_views(input@) =~= language_views(before).skip(1));
                assert(all.skip(taken as int).skip(1) =~= all.skip(taken + 1));
            }
            Self::add(&mut out, l);
            taken = taken + 1;
        }
        proof {
            assert(all.take(taken as int) =~= all);
        }
        GrammarEngine { grammar_dir: String::new(), library_ext: String::new(), languages: out }
    }
}

/// The key names at most one language, so it is that one.
proof fn lemma_key_index_unique(s: Seq<LanguageView>, i: int)
    requires
        keys_unique(s),
        0 <= i < s.len(),
    ensures
        key_index(s, key_of(s[i])) == Some(i),
{
    let k = key_of(s[i]);
    assert(has_key(s, k));
    let j = choose|j: int| 0 <= j < s.len() && #[trigger] key_of(s[j]) == k;
    if j != i {
        if j < i {
            assert(key_of(s[j]) != key_of(s[i]));
        } else {
            assert(key_of(s[i]) != key_of(s[j]));
        }
    }
}

/// Loading a language's grammar keeps every lookup where it was: the id
/// still names the same language, now loaded, so the next load of that
/// id finds it ready and opens nothing; the other languages are left as
/// they were.
pub proof fn law_loaded_language_is_cached(s: Seq<LanguageView>, id: Seq<char>)
    requires
        keys_unique(s),
        key_index(s, id) is Some,
    ensures
        ({
            let i = key_index(s, id)->0;
            &&& keys_unique(mark_loaded(s, i))
            &&& key_index(mark_loaded(s, i), id) == Some(i)
            &&& mark_loaded(s, i)[i].loaded
            &&& mark_loaded(s, i)[i].id == s[i].id
            &&& forall|j: int| 0 <= j < s.len() && j != i ==> #[trigger] mark_loaded(s, i)[j] == s[j]
        }),
{
    let k = id;
    let i = key_index(s, k)->0;
    let t = mark_loaded(s, i);
    assert(key_of(s[i]) == k);
    assert forall|a: int, b: int| 0 <= a < b < t.len() implies key_of(t[a]) != key_of(t[b]) by {
        assert(key_of(t[a]) == key_of(s[a]));
        assert(key_of(t[b]) == key_of(s[b]));
    }
    assert(key_of(t[i]) == k);
    lemma_key_index_unique(t, i);
}

/// Every language built from `ls` is unloaded when every one of `ls` is.
proof fn lemma_build_unloaded(ls: Seq<LanguageView>)
    requires
        forall|j: int| 0 <= j < ls.len() ==> !(#[trigger] ls[j]).loaded,
    ensures
        forall|j: int| 0 <= j < build(ls).len() ==> !(#[trigger] build(ls)[j]).loaded,
    decreases ls.len(),
{
    if ls.len() > 0 {
        let rest = ls.drop_last();
        assert forall|j: int| 0 <= j < rest.len() implies !(#[trigger] rest[j]).loaded by {
            assert(rest[j] == ls[j]);
        }
        lemma_build_unloaded(rest);
        let b = build(rest);
        let l = ls.last();
        assert(!l.loaded);
        if has_key(b, key_of(l)) {
            let c = choose|c: int| 0 <= c < b.len() && #[trigger] key_of(b[c]) == key_of(l);
            assert(build(ls) == b.update(c, l));
            assert forall|j: int| 0 <= j < build(ls).len() implies !(#[trigger] build(ls)[j]).loaded by {
                if j != c {
                    assert(build(ls)[j] == b[j]);
                }
            }
        } else {
            assert(build(ls) == b.push(l));
            assert forall|j: int| 0 <= j < build(ls).len() implies !(#[trigger] build(ls)[j]).loaded by {
                if j < b.len() {
                    assert(build(ls)[j] == b[j]);
                }
            }
        }
    }
}

/// The languages a configuration declares are unloaded.
proof fn lemma_config_unloaded(m: Seq<(Seq<char>, Seq<crate::extension::EntryView>)>)
    ensures
        forall|j: int| 0 <= j < config_views(m).len() ==> !(#[trigger] config_views(m)[j]).loaded,
    decreases m.len(),
{
    if m.len() > 0 {
        let rest = config_views(m.drop_last());
        lemma_config_unloaded(m.drop_last());
        assert forall|j: int| 0 <= j < config_views(m).len() implies !(#[trigger] config_views(
            m,
        )[j]).loaded by {
            if j < rest.len() {
                assert(config_views(m)[j] == rest[j]);
            }
        }
    }
}

/// An engine made from a configuration has loaded no grammar: loading
/// the configuration opens no library.
pub proof fn law_configured_languages_start_unloaded(m: Seq<(Seq<char>, Seq<crate::extension::EntryView>)>)
    ensures
        forall|j: int|
            0 <= j < build(config_views(m)).len() ==> !(#[trigger] build(config_views(m))[j]).loaded,
        loaded_ids(build(config_views(m))) == Seq::<Seq<char>>::empty(),
{
    lemma_config_unloaded(m);
    lemma_build_unloaded(config_views(m));
    law_loaded_ids_are_the_loaded_languages(build(config_views(m)));
    let l = loaded_ids(build(config_views(m)));
    if l.len() > 0 {
        assert(l.contains(l[0]));
    }
}

/// The loaded ids list exactly the ids of the loaded languages, in order
/// of the languages.
pub proof fn law_loaded_ids_are_the_loaded_languages(s: Seq<LanguageView>)
    ensures
        forall|x: Seq<char>|
            #[trigger] loaded_ids(s).contains(x) <==> exists|j: int|
                0 <= j < s.len() && (#[trigger] s[j]).loaded && s[j].id == x,
    decreases s.len(),
{
    if s.len() > 0 {
        let rest = s.drop_last();
        law_loaded_ids_are_the_loaded_languages(rest);
        assert forall|x: Seq<char>|
            #[trigger] loaded_ids(s).contains(x) <==> exists|j: int|
                0 <= j < s.len() && (#[trigger] s[j]).loaded && s[j].id == x by {
            if loaded_ids(s).contains(x) {
                if s.last().loaded && x == s.last().id {
                    assert(s[s.len() - 1].loaded && s[s.len() - 1].id == x);
                } else {
                    if s.last().loaded {
                        let w = choose|w: int| 0 <= w < loaded_ids(s).len() && loaded_ids(s)[w] == x;
                        assert(loaded_ids(rest)[w] == x);
                    }
                    assert(loaded_ids(rest).contains(x));
                    let j = choose|j: int| 0 <= j < rest.len() && (#[trigger] rest[j]).loaded && rest[j].id == x;
                    assert(s[j] == rest[j]);
                }
            }
            if exists|j: int| 0 <= j < s.len() && (#[trigger] s[j]).loaded && s[j].id == x {
                let j = choose|j: int| 0 <= j < s.len() && (#[trigger] s[j]).loaded && s[j].id == x;
                if j == s.len() - 1 {
                    assert(loaded_ids(s).last() == x);
                } else {
                    assert(rest[j] == s[j]);
                    assert(loaded_ids(rest).contains(x));
                    let w = choose|w: int| 0 <= w < loaded_ids(rest).len() && loaded_ids(rest)[w] == x;
                    assert(loaded_ids(s)[w] == x);
                }
            }
        }
    }
}

/// The index in `ls` of the last language with id `k`, if any.
pub open spec fn last_with_key(ls: Seq<LanguageView>, k: Seq<char>) -> Option<int>
    decreases ls.len(),
{
    if ls.len() == 0 {
        None
    } else if key_of(ls.last()) == k {
        Some(ls.len() - 1)
    } else {
        last_with_key(ls.drop_last(), k)
    }
}

/// Building from a list of languages keeps, for each id, the
/// language listed last with that key; a key no listed language has is
/// not there.
pub proof fn law_later_language_wins(ls: Seq<LanguageView>, k: Seq<char>)
    ensures
        keys_unique(build(ls)),
        last_with_key(ls, k) matches Some(j) ==> 0 <= j < ls.len() && key_of(ls[j]) == k,
        match last_with_key(ls, k) {
            None => key_index(build(ls), k) is None,
            Some(j) => key_index(build(ls), k) matches Some(i) && build(ls)[i] == ls[j],
        },
    decreases ls.len(),
{
    if ls.len() > 0 {
        let rest = ls.drop_last();
        let b = build(rest);
        let l = ls.last();
        law_later_language_wins(rest, k);
        lemma_upsert(b, l);
        let t = upsert(b, l);
        if key_of(l) == k {
            assert(has_key(t, k));
            let i = choose|i: int| 0 <= i < t.len() && #[trigger] key_of(t[i]) == k;
            if has_key(b, k) {
                let c = choose|c: int| 0 <= c < b.len() && #[trigger] key_of(b[c]) == k;
                assert(t[c] == l);
                lemma_key_index_unique(t, c);
            } else {
                assert(t[b.len() as int] == l);
                lemma_key_index_unique(t, b.len() as int);
            }
        } else {
            assert(last_with_key(ls, k) == last_with_key(rest, k));
            let lk = key_of(l);
            match last_with_key(rest, k) {
                None => {
                    if has_key(t, k) {
                        let i = choose|i: int| 0 <= i < t.len() && #[trigger] key_of(t[i]) == k;
                        if has_key(b, lk) {
                            let c = choose|c: int| 0 <= c < b.len() && #[trigger] key_of(b[c]) == lk;
                            if i != c {
                                assert(key_of(b[i]) == k);
                            }
                        } else {
                            if i < b.len() {
                                assert(key_of(b[i]) == k);
                            }
                        }
                    }
                },
                Some(j) => {
                    let i = key_index(b, k)->0;
                    assert(key_of(b[i]) == k);
                    if has_key(b, lk) {
                        let c = choose|c: int| 0 <= c < b.len() && #[trigger] key_of(b[c]) == lk;
                        assert(c != i);
                        assert(t[i] == b[i]);
                    } else {
                        assert(t[i] == b[i]);
                    }
                    lemma_key_index_unique(t, i);
                    assert(rest[j] == ls[j]);
                },
            }
        }
    }
}

/// `first_ext_match` from `start` is the first language at or after
/// `start` whose plain extensions hold `ext`.
proof fn lemma_first_ext_match(s: Seq<LanguageView>, ext: Seq<char>, start: int)
    requires
        0 <= start,
    ensures
        match first_ext_match(s, ext, start) {
            Some(i) => start <= i < s.len() && any_matches_ext(s[i].extensions, ext) && forall|j: int|
                start <= j < i ==> !any_matches_ext(#[trigger] s[j].extensions, ext),
            None => forall|j: int| start <= j < s.len() ==> !any_matches_ext(#[trigger] s[j].extensions, ext),
        },
    decreases s.len() - start,
{
    if start < s.len() && !any_matches_ext(s[start].extensions, ext) {
        lemma_first_ext_match(s, ext, start + 1);
    }
}

/// A path is given the first configured language that claims its
/// extension, before any language whose glob matches the path.
pub proof fn law_extension_match_wins(s: Seq<LanguageView>, path: Seq<char>)
    requires
        extension(path) is Some,
        exists|j: int| 0 <= j < s.len() && any_matches_ext(#[trigger] s[j].extensions, extension(path)->0),
    ensures
        inferred_index(s, path) matches Some(i) && 0 <= i < s.len() && any_matches_ext(
            s[i].extensions,
            extension(path)->0,
        ) && forall|j: int|
            0 <= j < i ==> !any_matches_ext(#[trigger] s[j].extensions, extension(path)->0),
{
    lemma_first_ext_match(s, extension(path)->0, 0);
}

/// `b` holds the languages of `a`, in the same places, with possibly
/// more of their grammars loaded and none unloaded.
pub open spec fn only_loaded_more(a: Seq<LanguageView>, b: Seq<LanguageView>) -> bool {
    &&& a.len() == b.len()
    &&& forall|i: int|
        0 <= i < a.len() ==> {
            &&& (#[trigger] b[i]).id == a[i].id
            &&& b[i].extensions == a[i].extensions
            &&& (a[i].loaded ==> b[i].loaded)
        }
}

/// Loading grammars changes no lookup: an id names the same place before
/// and after, and ids stay unique.
pub proof fn lemma_only_loaded_more_keeps_lookups(a: Seq<LanguageView>, b: Seq<LanguageView>, k: Seq<char>)
    requires
        keys_unique(a),
        only_loaded_more(a, b),
    ensures
        keys_unique(b),
        key_index(b, k) == key_index(a, k),
{
    assert forall|x: int, y: int| 0 <= x < y < b.len() implies key_of(b[x]) != key_of(b[y]) by {
        assert(key_of(b[x]) == key_of(a[x]));
        assert(key_of(b[y]) == key_of(a[y]));
    }
    if has_key(a, k) {
        let j = choose|j: int| 0 <= j < a.len() && #[trigger] key_of(a[j]) == k;
        lemma_key_index_unique(a, j);
        assert(key_of(b[j]) == key_of(a[j]));
        lemma_key_index_unique(b, j);
    } else if has_key(b, k) {
        let j = choose|j: int| 0 <= j < b.len() && #[trigger] key_of(b[j]) == k;
        assert(key_of(a[j]) == key_of(b[j]));
    }
}

/// What a load ends in leaves the languages as they were, or loads one
/// more grammar.
pub proof fn lemma_load_outcome_only_loads(
    old: Seq<LanguageView>,
    new: Seq<LanguageView>,
    dir: Seq<char>,
    ext: Seq<char>,
    i: int,
    r: Result<LanguageEntry, GrammarError>,
)
    requires
        0 <= i < old.len(),
        load_outcome(old, new, dir, ext, i, r),
    ensures
        only_loaded_more(old, new),
{
    if new != old {
        assert(new == mark_loaded(old, i));
        assert forall|j: int| 0 <= j < old.len() implies {
            &&& (#[trigger] new[j]).id == old[j].id
            &&& new[j].extensions == old[j].extensions
            &&& (old[j].loaded ==> new[j].loaded)
        } by {
            if j != i {
                assert(new[j] == old[j]);
            }
        }
    }
}

/// Loading more grammars twice is loading more grammars.
pub proof fn lemma_only_loaded_more_transitive(a: Seq<LanguageView>, b: Seq<LanguageView>, c: Seq<LanguageView>)
    requires
        only_loaded_more(a, b),
        only_loaded_more(b, c),
    ensures
        only_loaded_more(a, c),
{
    assert forall|j: int| 0 <= j < a.len() implies {
        &&& (#[trigger] c[j]).id == a[j].id
        &&& c[j].extensions == a[j].extensions
        &&& (a[j].loaded ==> c[j].loaded)
    } by {
        assert(b[j].id == a[j].id);
        assert(c[j].id == b[j].id);
    }
}

} // verus!
