//! Grammar libraries on disk: which files hold them, what opening one
//! asks for, and whether a grammar's ABI is one the parser accepts. The
//! opening itself is done by the caller's `open`.

use vstd::prelude::*;
use crate::engine::{language_views, request_for, LoadRequest};
use crate::error::LoadGrammarError;
use crate::language::{constructor_symbol_of, LanguageEntry, LanguageId, LanguageView};
use crate::paths::{extension, file_stem, path_extension, path_file_stem, path_join};
use crate::text::str_eq;

verus! {

/// The request for the grammar library of language `id` in
/// `grammar_dir`, whose library files have extension `ext`.
pub fn library_request(grammar_dir: &str, ext: &str, id: &LanguageId) -> (r: LoadRequest)
    ensures
        request_for(r, grammar_dir@, ext@, id@),
{
    let file = id.library_filename(ext);
    LoadRequest {
        id: id.to_string(),
        path: path_join(grammar_dir, file.as_str()),
        symbol: id.constructor_symbol(),
    }
}

/// What opening the library for language `id` under `dir` (file
/// extension `ext`) gave: the language and its grammar, or the failure.
pub open spec fn discovered(
    open: spec_fn(LoadRequest, Result<tree_sitter::Language, LoadGrammarError>) -> bool,
    dir: Seq<char>,
    ext: Seq<char>,
    id: Seq<char>,
    outcome: Result<(LanguageId, tree_sitter::Language), LoadGrammarError>,
) -> bool {
    exists|req: LoadRequest|
        #[trigger] request_for(req, dir, ext, id) && match outcome {
            Ok((got, g)) => got@ == id && open(req, Ok(g)),
            Err(e) => open(req, Err(e)),
        }
}

/// A grammar directory entry that holds a grammar library: a file with
/// the library extension `ext`.
pub open spec fn is_grammar_library(path: Seq<char>, is_file: bool, ext: Seq<char>) -> bool {
    is_file && extension(path) == Some(ext)
}

/// The paths of the grammar libraries among directory entries (each a
/// path and whether it is a file), in order.
pub open spec fn grammar_paths(entries: Seq<(String, bool)>, ext: Seq<char>) -> Seq<Seq<char>>
    decreases entries.len(),
{
    if entries.len() == 0 {
        Seq::empty()
    } else {
        let rest = grammar_paths(entries.drop_last(), ext);
        if is_grammar_library(entries.last().0@, entries.last().1, ext) {
            rest.push(entries.last().0@)
        } else {
            rest
        }
    }
}

/// `req` asks for the library at `path`, for the language its stem
/// names.
pub open spec fn request_at(req: LoadRequest, path: Seq<char>) -> bool {
    &&& file_stem(path) is Some
    &&& req.id@ == file_stem(path)->0
    &&& req.path@ == path
    &&& req.symbol@ == constructor_symbol_of(file_stem(path)->0)
}

/// What opening the library at `path` gave: the language its stem names
/// and its grammar, or the failure.
pub open spec fn discovered_at(
    open: spec_fn(LoadRequest, Result<tree_sitter::Language, LoadGrammarError>) -> bool,
    path: Seq<char>,
    outcome: Result<(LanguageId, tree_sitter::Language), LoadGrammarError>,
) -> bool {
    exists|req: LoadRequest|
        #[trigger] request_at(req, path) && match outcome {
            Ok((got, g)) => got@ == file_stem(path)->0 && open(req, Ok(g)),
            Err(e) => open(req, Err(e)),
        }
}

/// Opens every grammar library among the grammar directory's `entries`
/// (each a path and whether it is a file), in their order: files with the
/// library extension `ext`, each for the language its stem names; other
/// entries are passed over.
pub fn discover_grammars<F: Fn(&LoadRequest) -> Result<tree_sitter::Language, LoadGrammarError>>(
    entries: &Vec<(String, bool)>,
    ext: &str,
    open: &F,
) -> (r: Vec<Result<(LanguageId, tree_sitter::Language), LoadGrammarError>>)
    requires
        forall|req: &LoadRequest| open.requires((req,)),
    ensures
        r@.len() == grammar_paths(entries@, ext@).len(),
        forall|i: int|
            0 <= i < r@.len() ==> discovered_at(
                |req: LoadRequest, o: Result<tree_sitter::Language, LoadGrammarError>|
                    open.ensures((&req,), o),
                grammar_paths(entries@, ext@)[i],
                #[trigger] r@[i],
            ),
{
    let mut out: Vec<Result<(LanguageId, tree_sitter::Language), LoadGrammarError>> = Vec::new();
    let mut i: usize = 0;
    while i < entries.len()
        invariant
            i <= entries@.len(),
            out@.len() == grammar_paths(entries@.take(i as int), ext@).len(),
            forall|k: int|
                0 <= k < out@.len() ==> discovered_at(
                    |req: LoadRequest, o: Result<tree_sitter::Language, LoadGrammarError>|
                        open.ensures((&req,), o),
                    grammar_paths(entries@.take(i as int), ext@)[k],
                    #[trigger] out@[k],
                ),
            forall|req: &LoadRequest| open.requires((req,)),
        decreases entries@.len() - i,
    {
        let ghost before = grammar_paths(entries@.take(i as int), ext@);
        proof {
            assert(entries@.take(i + 1).drop_last() =~= entries@.take(i as int));
            assert(entries@.take(i + 1).last() == entries@[i as int]);
        }
        let path = &entries[i].0;
        let is_lib = entries[i].1 && match path_extension(path.as_str()) {
            Some(e) => str_eq(e.as_str(), ext),
            None => false,
        };
        if is_lib {
            match path_file_stem(path.as_str()) {
                Some(stem) => {
                    let id = LanguageId::new_unchecked(stem.as_str());
                    let req = LoadRequest {
                        id: stem.clone(),
                        path: path.clone(),
                        symbol: id.constructor_symbol(),
                    };
                    let outcome = open(&req);
                    let ghost o = outcome;
                    let item = match outcome {
                        Ok(g) => Ok((id, g)),
                        Err(e) => Err(e),
                    };
                    proof {
                        assert(request_at(req, path@));
                        assert(grammar_paths(entries@.take(i + 1), ext@) == before.push(path@));
                    }
                    out.push(item);
                },
                None => {
                    proof {
                        assert(false);
                    }
                },
            }
        } else {
            proof {
                assert(grammar_paths(entries@.take(i + 1), ext@) == before);
            }
        }
        i = i + 1;
    }
    proof {
        assert(entries@.take(entries@.len() as int) =~= entries@);
    }
    out
}

/// Opens the grammar library of each of `langs` under `grammar_dir`
/// (library files with extension `ext`), in order: one outcome per
/// language, at the same position.
pub fn discover_selected_grammars<F: Fn(&LoadRequest) -> Result<tree_sitter::Language, LoadGrammarError>>(
    grammar_dir: &str,
    ext: &str,
    langs: Vec<LanguageId>,
    open: &F,
) -> (r: Vec<Result<(LanguageId, tree_sitter::Language), LoadGrammarError>>)
    requires
        forall|req: &LoadRequest| open.requires((req,)),
    ensures
        r@.len() == langs@.len(),
        forall|i: int|
            0 <= i < r@.len() ==> discovered(
                |req: LoadRequest, o: Result<tree_sitter::Language, LoadGrammarError>|
                    open.ensures((&req,), o),
                grammar_dir@,
                ext@,
                langs@[i]@,
                #[trigger] r@[i],
            ),
{
    let mut out: Vec<Result<(LanguageId, tree_sitter::Language), LoadGrammarError>> = Vec::new();
    let mut i: usize = 0;
    while i < langs.len()
        invariant
            i <= langs@.len(),
            out@.len() == i,
            forall|req: &LoadRequest| open.requires((req,)),
            forall|k: int|
                0 <= k < i ==> discovered(
                    |req: LoadRequest, o: Result<tree_sitter::Language, LoadGrammarError>|
                        open.ensures((&req,), o),
                    grammar_dir@,
                    ext@,
                    langs@[k]@,
                    #[trigger] out@[k],
                ),
        decreases langs@.len() - i,
    {
        let req = library_request(grammar_dir, ext, &langs[i]);
        let outcome = open(&req);
        let ghost o = outcome;
        let item = match outcome {
            Ok(g) => Ok((langs[i].clone(), g)),
            Err(e) => Err(e),
        };
        proof {
            assert(request_for(req, grammar_dir@, ext@, langs@[i as int]@));
        }
        out.push(item);
        i = i + 1;
    }
    out
}

/// The grammar's ABI version is one the parser accepts.
pub open spec fn abi_supported(abi: usize) -> bool {
    crate::error::MIN_COMPATIBLE_LANGUAGE_VERSION <= abi <= crate::error::LANGUAGE_VERSION
}

/// Accepts an ABI version between the oldest and the newest the parser
/// supports, both included.
pub fn abi_check(abi: usize) -> (r: Result<(), LoadGrammarError>)
    ensures
        r is Ok <==> abi_supported(abi),
        r matches Err(e) ==> e matches LoadGrammarError::IncompatibleAbi { abi: a } && a == abi,
{
    let min = crate::ts::min_compatible_language_version();
    let max = crate::ts::language_version();
    if min <= abi && abi <= max {
        Ok(())
    } else {
        Err(LoadGrammarError::IncompatibleAbi { abi })
    }
}

/// Accepts a grammar whose ABI version the parser supports; a refusal
/// names the grammar's version, which lies outside the supported range.
pub fn check_abi(grammar: &tree_sitter::Language) -> (r: Result<(), LoadGrammarError>)
    ensures
        r matches Err(e) ==> (e matches LoadGrammarError::IncompatibleAbi { abi } && !abi_supported(
            abi,
        )),
{
    abi_check(crate::ts::grammar_abi_version(grammar))
}

/// What a joining step is told of one opening: the language it was for,
/// or the failure.
pub open spec fn outcome_view(r: Result<(LanguageId, tree_sitter::Language), LoadGrammarError>) -> Result<
    Seq<char>,
    LoadGrammarError,
> {
    match r {
        Ok((id, _)) => Ok(id@),
        Err(e) => Err(e),
    }
}

/// An error that joining reports: a grammar that no configured language
/// claims, or a failure passed on as it came.
pub enum JoinError {
    Unclaimed(Seq<char>),
    Passed(LoadGrammarError),
}

/// `e` is how the joining error `x` is reported.
pub open spec fn join_error_is(e: LoadGrammarError, x: JoinError) -> bool {
    match x {
        JoinError::Unclaimed(id) => e matches LoadGrammarError::NotConfigured { id: y } && y@ == id,
        JoinError::Passed(p) => e == p,
    }
}

/// The index of the first language from `i` on whose id is exactly `id`.
pub open spec fn id_position(s: Seq<LanguageView>, id: Seq<char>, i: int) -> Option<int>
    decreases s.len() - i,
{
    if i < 0 || i >= s.len() {
        None
    } else if s[i].id == id {
        Some(i)
    } else {
        id_position(s, id, i + 1)
    }
}

/// `l` added to `s`, taking the place of the language with the same id if
/// there is one.
pub open spec fn id_upsert(s: Seq<LanguageView>, l: LanguageView) -> Seq<LanguageView> {
    match id_position(s, l.id, 0) {
        Some(j) => s.update(j, l),
        None => s.push(l),
    }
}

/// The languages of `ls`, one per id, the one listed last for each.
pub open spec fn id_table(ls: Seq<LanguageView>) -> Seq<LanguageView>
    decreases ls.len(),
{
    if ls.len() == 0 {
        Seq::empty()
    } else {
        id_upsert(id_table(ls.drop_last()), ls.last())
    }
}

/// Where joining stands: the languages still waiting for a grammar, the
/// ones given theirs (in the order the grammars came), and the errors.
pub struct JoinState {
    pub waiting: Seq<LanguageView>,
    pub loaded: Seq<LanguageView>,
    pub errors: Seq<JoinError>,
}

/// Joining the outcomes `rs`, in order, to the languages `start`: a
/// grammar goes to the waiting language with its id, which leaves the
/// waiting ones; a grammar no waiting language claims, and every failure,
/// is an error.
pub open spec fn join_state(start: Seq<LanguageView>, rs: Seq<Result<Seq<char>, LoadGrammarError>>) -> JoinState
    decreases rs.len(),
{
    if rs.len() == 0 {
        JoinState { waiting: start, loaded: Seq::empty(), errors: Seq::empty() }
    } else {
        let st = join_state(start, rs.drop_last());
        match rs.last() {
            Ok(id) => match id_position(st.waiting, id, 0) {
                Some(j) => JoinState {
                    waiting: st.waiting.remove(j),
                    loaded: st.loaded.push(LanguageView { loaded: true, ..st.waiting[j] }),
                    errors: st.errors,
                },
                None => JoinState { errors: st.errors.push(JoinError::Unclaimed(id)), ..st },
            },
            Err(e) => JoinState { errors: st.errors.push(JoinError::Passed(e)), ..st },
        }
    }
}

/// The position of the first language in `v` whose id is exactly `id`.
fn position_of_id(v: &Vec<LanguageEntry>, id: &str) -> (r: Option<usize>)
    ensures
        match r {
            Some(j) => id_position(language_views(v@), id@, 0) == Some(j as int) && j < v@.len(),
            None => id_position(language_views(v@), id@, 0) is None,
        },
{
    let ghost s = language_views(v@);
    let mut i: usize = 0;
    while i < v.len()
        invariant
            s == language_views(v@),
            i <= v@.len(),
            id_position(s, id@, 0) == id_position(s, id@, i as int),
        decreases v@.len() - i,
    {
        if str_eq(v[i].id().as_str(), id) {
            return Some(i);
        }
        i = i + 1;
    }
    None
}

/// Matches opened grammars to the configured `languages` (one per id, the
/// one listed last): each grammar goes to the language with its id,
/// which then counts as loaded; a grammar no language claims is reported
/// as not configured, and a failed opening is reported as it came.
/// Gives the loaded languages, the errors, and the languages no grammar
/// came for.
pub fn join(
    languages: Vec<LanguageEntry>,
    results: Vec<Result<(LanguageId, tree_sitter::Language), LoadGrammarError>>,
) -> (r: (Vec<LanguageEntry>, Vec<LoadGrammarError>, Vec<LanguageEntry>))
    ensures
        ({
            let st = join_state(
                id_table(language_views(languages@)),
                results@.map_values(|o: Result<(LanguageId, tree_sitter::Language), LoadGrammarError>| outcome_view(o)),
            );
            &&& language_views(r.0@) == st.loaded
            &&& language_views(r.2@) == st.waiting
            &&& r.1@.len() == st.errors.len()
            &&& forall|k: int| 0 <= k < r.1@.len() ==> join_error_is(#[trigger] r.1@[k], st.errors[k])
        }),
{
    let ghost all = language_views(languages@);
    let mut waiting: Vec<LanguageEntry> = Vec::new();
    let mut input = languages;
    let n = input.len();
    let mut taken: usize = 0;
    proof {
        assert(language_views(waiting@) =~= id_table(all.take(0)));
        assert(language_views(input@) =~= all.skip(0));
    }
    while input.len() > 0
        invariant
            taken + input@.len() == all.len(),
            all.len() == n,
            language_views(input@) =~= all.skip(taken as int),
            language_views(waiting@) == id_table(all.take(taken as int)),
        decreases input@.len(),
    {
        let ghost before = input@;
        let l = input.remove(0);
        proof {
            assert(input@ =~= before.remove(0));
            assert(l@ == all[taken as int]) by {
                assert(language_views(before)[0] == all.skip(taken as int)[0]);
            }
            assert(all.take(taken + 1).drop_last() =~= all.take(taken as int));
            assert(all.take(taken + 1).last() == all[taken as int]);
            assert(language_views(input@) =~= language_views(before).skip(1));
            assert(all.skip(taken as int).skip(1) =~= all.skip(taken + 1));
        }
        let ghost w = language_views(waiting@);
        let ghost lv = l@;
        match position_of_id(&waiting, l.id().as_str()) {
            Some(j) => {
                proof {
                    assert(id_position(w, lv.id, 0) == Some(j as int));
                    assert(id_upsert(w, lv) == w.update(j as int, lv));
                }
                waiting.set(j, l);
                proof {
                    assert(language_views(waiting@) =~= w.update(j as int, lv));
                }
            },
            None => {
                proof {
                    assert(id_upsert(w, lv) == w.push(lv));
                }
                waiting.push(l);
                proof {
                    assert(language_views(waiting@) =~= w.push(lv));
                }
            },
        }
        proof {
            assert(id_table(all.take(taken + 1)) == id_upsert(id_table(all.take(taken as int)), lv));
        }
        taken = taken + 1;
    }
    proof {
        assert(all.take(taken as int) =~= all);
    }
    let ghost start = language_views(waiting@);
    let ghost rs = results@.map_values(
        |o: Result<(LanguageId, tree_sitter::Language), LoadGrammarError>| outcome_view(o),
    );
    let mut loaded: Vec<LanguageEntry> = Vec::new();
    let mut errors: Vec<LoadGrammarError> = Vec::new();
    let mut rest = results;
    let m = rest.len();
    let mut done: usize = 0;
    proof {
        assert(rs.take(0) =~= Seq::<Result<Seq<char>, LoadGrammarError>>::empty());
        assert(rest@ =~= results@.skip(0));
    }
    while rest.len() > 0
        invariant
            done + rest@.len() == results@.len(),
            results@.len() == m,
            rs == results@.map_values(
                |o: Result<(LanguageId, tree_sitter::Language), LoadGrammarError>| outcome_view(o),
            ),
            rest@ =~= results@.skip(done as int),
            ({
                let st = join_state(start, rs.take(done as int));
                &&& language_views(loaded@) == st.loaded
                &&& language_views(waiting@) == st.waiting
                &&& errors@.len() == st.errors.len()
                &&& forall|k: int| 0 <= k < errors@.len() ==> join_error_is(#[trigger] errors@[k], st.errors[k])
            }),
        decreases rest@.len(),
    {
        let ghost st = join_state(start, rs.take(done as int));
        let ghost before = rest@;
        let item = rest.remove(0);
        proof {
            assert(rest@ =~= before.remove(0));
            assert(item == results@[done as int]);
            assert(rs.take(done + 1).drop_last() =~= rs.take(done as int));
            assert(rs.take(done + 1).last() == outcome_view(item));
            assert(rest@ =~= results@.skip(done + 1));
        }
        let ghost w = language_views(waiting@);
        let ghost ld = language_views(loaded@);
        match item {
            Ok((id, g)) => {
                match position_of_id(&waiting, id.as_str()) {
                    Some(j) => {
                        let mut lang = waiting.remove(j);
                        lang.set_grammar(g);
                        let ghost lv = lang@;
                        loaded.push(lang);
                        proof {
                            assert(language_views(waiting@) =~= w.remove(j as int));
                            assert(language_views(loaded@) =~= ld.push(lv));
                        }
                    },
                    None => {
                        let ghost before_errors = errors@;
                        errors.push(LoadGrammarError::NotConfigured { id: id.to_string() });
                        proof {
                            assert forall|k: int| 0 <= k < errors@.len() implies join_error_is(
                                #[trigger] errors@[k],
                                st.errors.push(JoinError::Unclaimed(id@))[k],
                            ) by {
                                if k < before_errors.len() {
                                    assert(errors@[k] == before_errors[k]);
                                }
                            }
                        }
                    },
                }
            },
            Err(e) => {
                let ghost ev = e;
                let ghost before_errors = errors@;
                errors.push(e);
                proof {
                    assert forall|k: int| 0 <= k < errors@.len() implies join_error_is(
                        #[trigger] errors@[k],
                        st.errors.push(JoinError::Passed(ev))[k],
                    ) by {
                        if k < before_errors.len() {
                            assert(errors@[k] == before_errors[k]);
                        }
                    }
                }
            },
        }
        done = done + 1;
    }
    proof {
        assert(rs.take(done as int) =~= rs);
    }
    (loaded, errors, waiting)
}

} // verus!
