//! Capability negotiation: which languages a client can use, with
//! near-name suggestions for ids that are not configured.

use vstd::prelude::*;
use crate::engine::{
    has_key, key_of, keys_unique, lemma_load_outcome_only_loads, lemma_only_loaded_more_keeps_lookups,
    lemma_only_loaded_more_transitive, mark_loaded, only_loaded_more, open_gave, request_for,
    GrammarEngine, LoadRequest,
};
use crate::error::{GrammarError, LoadGrammarError};
use crate::language::{
    display_entries, entry_displays, LanguageEntry, LanguageId, LanguageView,
};
use crate::text::{chars_of, owned, views};

verus! {

// ---------------------------------------------------------------------
// Edit distance
// ---------------------------------------------------------------------

/// The least of three numbers.
pub open spec fn min3(x: int, y: int, z: int) -> int {
    if x <= y && x <= z {
        x
    } else if y <= z {
        y
    } else {
        z
    }
}

/// The Levenshtein distance: the fewest single-character insertions,
/// deletions and substitutions that turn `a` into `b`.
pub open spec fn levenshtein(a: Seq<char>, b: Seq<char>) -> nat
    decreases a.len() + b.len(),
{
    if a.len() == 0 {
        b.len()
    } else if b.len() == 0 {
        a.len()
    } else {
        min3(
            levenshtein(a.drop_last(), b) as int + 1,
            levenshtein(a, b.drop_last()) as int + 1,
            levenshtein(a.drop_last(), b.drop_last()) as int + if a.last() == b.last() {
                0int
            } else {
                1int
            },
        ) as nat
    }
}

/// The distance is at most the longer length.
pub proof fn lemma_levenshtein_bound(a: Seq<char>, b: Seq<char>)
    ensures
        levenshtein(a, b) <= if a.len() >= b.len() {
            a.len()
        } else {
            b.len()
        },
    decreases a.len() + b.len(),
{
    if a.len() > 0 && b.len() > 0 {
        lemma_levenshtein_bound(a.drop_last(), b.drop_last());
    }
}

/// The distance is at least the difference of the lengths.
pub proof fn lemma_levenshtein_lower_bound(a: Seq<char>, b: Seq<char>)
    ensures
        levenshtein(a, b) >= a.len() - b.len(),
        levenshtein(a, b) >= b.len() - a.len(),
    decreases a.len() + b.len(),
{
    if a.len() > 0 && b.len() > 0 {
        lemma_levenshtein_lower_bound(a.drop_last(), b);
        lemma_levenshtein_lower_bound(a, b.drop_last());
        lemma_levenshtein_lower_bound(a.drop_last(), b.drop_last());
    }
}

/// A string is at distance zero from itself.
pub proof fn lemma_levenshtein_identity(a: Seq<char>)
    ensures
        levenshtein(a, a) == 0,
    decreases a.len(),
{
    if a.len() > 0 {
        lemma_levenshtein_identity(a.drop_last());
        lemma_levenshtein_lower_bound(a.drop_last(), a);
        lemma_levenshtein_lower_bound(a, a.drop_last());
    }
}

/// The distance does not depend on the order of its arguments.
pub proof fn lemma_levenshtein_symmetric(a: Seq<char>, b: Seq<char>)
    ensures
        levenshtein(a, b) == levenshtein(b, a),
    decreases a.len() + b.len(),
{
    if a.len() > 0 && b.len() > 0 {
        lemma_levenshtein_symmetric(a.drop_last(), b);
        lemma_levenshtein_symmetric(a, b.drop_last());
        lemma_levenshtein_symmetric(a.drop_last(), b.drop_last());
    }
}

proof fn lemma_take_step(s: Seq<char>, i: int)
    requires
        0 < i <= s.len(),
    ensures
        s.take(i).drop_last() == s.take(i - 1),
        s.take(i).last() == s[i - 1],
        s.take(i).len() == i,
{
    assert(s.take(i).drop_last() =~= s.take(i - 1));
}

/// The Levenshtein distance between two strings, by characters.
pub fn edit_distance(a: &str, b: &str) -> (r: usize)
    ensures
        r == levenshtein(a@, b@),
{
    let x = chars_of(a);
    let y = chars_of(b);
    let m = x.len();
    let n = y.len();
    let mut prev: Vec<usize> = Vec::new();
    prev.push(0);
    let mut k: usize = 0;
    while k < n
        invariant
            y@ == b@,
            n == y@.len(),
            k <= n,
            prev@.len() == k + 1,
            forall|t: int| 0 <= t <= k ==> prev@[t] == levenshtein(a@.take(0), b@.take(t)),
        decreases n - k,
    {
        k = k + 1;
        prev.push(k);
        proof {
            assert(a@.take(0).len() == 0);
            assert(b@.take(k as int).len() == k);
        }
    }
    proof {
        assert(a@.take(0).len() == 0);
        assert(b@.take(0).len() == 0);
    }
    let mut i: usize = 0;
    while i < m
        invariant
            x@ == a@,
            y@ == b@,
            m == x@.len(),
            n == y@.len(),
            i <= m,
            prev@.len() == n + 1,
            forall|t: int| 0 <= t <= n ==> prev@[t] == levenshtein(a@.take(i as int), b@.take(t)),
        decreases m - i,
    {
        let mut cur: Vec<usize> = Vec::new();
        cur.push(i + 1);
        proof {
            assert(b@.take(0).len() == 0);
            assert(a@.take(i + 1).len() == i + 1);
        }
        let mut j: usize = 0;
        while j < n
            invariant
                x@ == a@,
                y@ == b@,
                m == x@.len(),
                n == y@.len(),
                i < m,
                j <= n,
                prev@.len() == n + 1,
                cur@.len() == j + 1,
                forall|t: int| 0 <= t <= n ==> prev@[t] == levenshtein(a@.take(i as int), b@.take(t)),
                forall|t: int| 0 <= t <= j ==> cur@[t] == levenshtein(a@.take(i + 1), b@.take(t)),
            decreases n - j,
        {
            let cost: usize = if x[i] == y[j] {
                0
            } else {
                1
            };
            proof {
                lemma_take_step(a@, i + 1);
                lemma_take_step(b@, j + 1);
                lemma_levenshtein_bound(a@.take(i as int), b@.take(j as int));
                assert(a@.take(i + 1).len() > 0);
                assert(b@.take(j + 1).len() > 0);
            }
            let del = prev[j + 1].saturating_add(1);
            let ins = cur[j].saturating_add(1);
            let sub = prev[j] + cost;
            let mut best = del;
            if ins < best {
                best = ins;
            }
            if sub < best {
                best = sub;
            }
            cur.push(best);
            j = j + 1;
        }
        prev = cur;
        i = i + 1;
    }
    proof {
        assert(a@.take(m as int) =~= a@);
        assert(b@.take(n as int) =~= b@);
    }
    prev[n]
}


// ---------------------------------------------------------------------
// Suggestions
// ---------------------------------------------------------------------

/// The farthest a configured id may be from a requested one and still be
/// suggested.
pub const SUGGESTION_DISTANCE: usize = 2;

/// The candidates, in order, at exactly distance `d` from `id`.
pub open spec fn at_distance(candidates: Seq<Seq<char>>, id: Seq<char>, d: nat) -> Seq<Seq<char>>
    decreases candidates.len(),
{
    if candidates.len() == 0 {
        Seq::empty()
    } else {
        let rest = at_distance(candidates.drop_last(), id, d);
        if levenshtein(id, candidates.last()) == d {
            rest.push(candidates.last())
        } else {
            rest
        }
    }
}

/// The suggestions for `id`: the candidates within distance two, nearest
/// first, candidates at equal distance in their given order.
pub open spec fn suggestions(candidates: Seq<Seq<char>>, id: Seq<char>) -> Seq<Seq<char>> {
    at_distance(candidates, id, 0) + at_distance(candidates, id, 1) + at_distance(candidates, id, 2)
}

/// The ids of a sequence of language ids.
pub open spec fn id_views(s: Seq<LanguageId>) -> Seq<Seq<char>> {
    s.map_values(|l: LanguageId| l@)
}

/// The members of `at_distance` are exactly the candidates at that
/// distance.
pub proof fn lemma_at_distance_members(candidates: Seq<Seq<char>>, id: Seq<char>, d: nat)
    ensures
        forall|s: Seq<char>| #[trigger] at_distance(candidates, id, d).contains(s) <==> (
        candidates.contains(s) && levenshtein(id, s) == d),
    decreases candidates.len(),
{
    if candidates.len() > 0 {
        let rest = candidates.drop_last();
        lemma_at_distance_members(rest, id, d);
        assert forall|s: Seq<char>| #[trigger] at_distance(candidates, id, d).contains(s) <==> (
        candidates.contains(s) && levenshtein(id, s) == d) by {
            if candidates.contains(s) && levenshtein(id, s) == d {
                let k = choose|k: int| 0 <= k < candidates.len() && candidates[k] == s;
                if k < candidates.len() - 1 {
                    assert(rest[k] == s);
                    assert(rest.contains(s));
                    assert(at_distance(rest, id, d).contains(s));
                    let w = choose|w: int| 0 <= w < at_distance(rest, id, d).len() && at_distance(rest, id, d)[w] == s;
                    if levenshtein(id, candidates.last()) == d {
                        assert(at_distance(candidates, id, d)[w] == s);
                    }
                } else {
                    assert(at_distance(candidates, id, d).last() == s);
                }
            }
            if at_distance(candidates, id, d).contains(s) {
                let w = choose|w: int| 0 <= w < at_distance(candidates, id, d).len() && at_distance(candidates, id, d)[w] == s;
                if levenshtein(id, candidates.last()) == d && w == at_distance(candidates, id, d).len() - 1 {
                    assert(candidates[candidates.len() - 1] == s);
                } else {
                    assert(at_distance(rest, id, d)[w] == s);
                    assert(at_distance(rest, id, d).contains(s));
                    let k = choose|k: int| 0 <= k < rest.len() && rest[k] == s;
                    assert(candidates[k] == s);
                }
            }
        }
    }
}

/// Each of the suggestions at distance `d` is at distance `d`.
proof fn lemma_at_distance_each(candidates: Seq<Seq<char>>, id: Seq<char>, d: nat)
    ensures
        forall|w: int|
            0 <= w < at_distance(candidates, id, d).len() ==> levenshtein(
                id,
                #[trigger] at_distance(candidates, id, d)[w],
            ) == d,
{
    lemma_at_distance_members(candidates, id, d);
    assert forall|w: int| 0 <= w < at_distance(candidates, id, d).len() implies levenshtein(
        id,
        #[trigger] at_distance(candidates, id, d)[w],
    ) == d by {
        assert(at_distance(candidates, id, d).contains(at_distance(candidates, id, d)[w]));
    }
}

/// Suggestions come nearest first: none is farther from `id` than one
/// after it.
pub proof fn law_suggestions_nearest_first(candidates: Seq<Seq<char>>, id: Seq<char>)
    ensures
        forall|a: int, b: int|
            0 <= a < b < suggestions(candidates, id).len() ==> levenshtein(
                id,
                #[trigger] suggestions(candidates, id)[a],
            ) <= levenshtein(id, #[trigger] suggestions(candidates, id)[b]),
{
    lemma_at_distance_each(candidates, id, 0);
    lemma_at_distance_each(candidates, id, 1);
    lemma_at_distance_each(candidates, id, 2);
    let x = at_distance(candidates, id, 0);
    let y = at_distance(candidates, id, 1);
    let z = at_distance(candidates, id, 2);
    let all = suggestions(candidates, id);
    assert forall|w: int| 0 <= w < all.len() implies levenshtein(id, #[trigger] all[w]) == (if w
        < x.len() {
        0int
    } else if w < x.len() + y.len() {
        1int
    } else {
        2int
    }) by {
        if w < x.len() {
            assert(all[w] == x[w]);
        } else if w < x.len() + y.len() {
            assert(all[w] == y[w - x.len()]);
        } else {
            assert(all[w] == z[w - x.len() - y.len()]);
        }
    }
}

/// Near-name matches for `id` among the `available` ids: those within edit
/// distance two, nearest first.
pub fn suggest_near(id: &LanguageId, available: &Vec<LanguageId>) -> (r: Vec<String>)
    ensures
        views(r@) == suggestions(id_views(available@), id@),
{
    let ghost c = id_views(available@);
    let name = id.to_string();
    let mut dists: Vec<usize> = Vec::new();
    let mut i: usize = 0;
    while i < available.len()
        invariant
            c == id_views(available@),
            name@ == id@,
            i <= available@.len(),
            dists@.len() == i,
            forall|k: int| 0 <= k < i ==> dists@[k] == levenshtein(id@, c[k]),
        decreases available@.len() - i,
    {
        let cand = available[i].to_string();
        dists.push(edit_distance(name.as_str(), cand.as_str()));
        i = i + 1;
    }
    let mut out: Vec<String> = Vec::new();
    let mut d: usize = 0;
    proof {
        assert(views(out@) =~= Seq::<Seq<char>>::empty());
    }
    while d <= SUGGESTION_DISTANCE
        invariant
            c == id_views(available@),
            dists@.len() == available@.len(),
            forall|k: int| 0 <= k < available@.len() ==> dists@[k] == levenshtein(id@, c[k]),
            d <= SUGGESTION_DISTANCE + 1,
            views(out@) == if d == 0 {
                Seq::<Seq<char>>::empty()
            } else if d == 1 {
                at_distance(c, id@, 0)
            } else if d == 2 {
                at_distance(c, id@, 0) + at_distance(c, id@, 1)
            } else {
                suggestions(c, id@)
            },
        decreases SUGGESTION_DISTANCE + 1 - d,
    {
        let ghost start = views(out@);
        let mut k: usize = 0;
        while k < available.len()
            invariant
                c == id_views(available@),
                dists@.len() == available@.len(),
                forall|t: int| 0 <= t < available@.len() ==> dists@[t] == levenshtein(id@, c[t]),
                k <= available@.len(),
                views(out@) == start + at_distance(c.take(k as int), id@, d as nat),
            decreases available@.len() - k,
        {
            proof {
                assert(c.take(k + 1).drop_last() =~= c.take(k as int));
                assert(c.take(k + 1).last() == c[k as int]);
            }
            if dists[k] == d {
                let s = available[k].to_string();
                let ghost before = out@;
                out.push(s);
                proof {
                    assert(views(out@) =~= views(before).push(s@));
                    assert(start + at_distance(c.take(k + 1), id@, d as nat) =~= (start
                        + at_distance(c.take(k as int), id@, d as nat)).push(c[k as int]));
                }
            }
            k = k + 1;
        }
        proof {
            assert(c.take(available@.len() as int) =~= c);
            if d == 0 {
                assert(start + at_distance(c, id@, 0) =~= at_distance(c, id@, 0));
            }
        }
        d = d + 1;
    }
    out
}

/// Every suggestion is a configured id within distance two of `id`, and
/// every configured id within distance two is suggested.
pub proof fn lemma_suggestions_are_the_near_ids(candidates: Seq<Seq<char>>, id: Seq<char>)
    ensures
        forall|s: Seq<char>| #[trigger] suggestions(candidates, id).contains(s) <==> (
        candidates.contains(s) && levenshtein(id, s) <= 2),
{
    lemma_at_distance_members(candidates, id, 0);
    lemma_at_distance_members(candidates, id, 1);
    lemma_at_distance_members(candidates, id, 2);
    let a = at_distance(candidates, id, 0);
    let b = at_distance(candidates, id, 1);
    let c = at_distance(candidates, id, 2);
    assert forall|s: Seq<char>| #[trigger] suggestions(candidates, id).contains(s) <==> (
    candidates.contains(s) && levenshtein(id, s) <= 2) by {
        let all = a + b + c;
        if all.contains(s) {
            let w = choose|w: int| 0 <= w < all.len() && all[w] == s;
            if w < a.len() {
                assert(a[w] == s);
                assert(a.contains(s));
            } else if w < a.len() + b.len() {
                assert(b[w - a.len()] == s);
                assert(b.contains(s));
            } else {
                assert(c[w - a.len() - b.len()] == s);
                assert(c.contains(s));
            }
        }
        if candidates.contains(s) && levenshtein(id, s) <= 2 {
            if levenshtein(id, s) == 0 {
                assert(a.contains(s));
                let w = choose|w: int| 0 <= w < a.len() && a[w] == s;
                assert(all[w] == s);
            } else if levenshtein(id, s) == 1 {
                assert(b.contains(s));
                let w = choose|w: int| 0 <= w < b.len() && b[w] == s;
                assert(all[a.len() + w] == s);
            } else {
                assert(c.contains(s));
                let w = choose|w: int| 0 <= w < c.len() && c[w] == s;
                assert(all[a.len() + b.len() + w] == s);
            }
        }
    }
}


// ---------------------------------------------------------------------
// Capabilities
// ---------------------------------------------------------------------

/// What a language's query files can support.
#[derive(Debug, Clone, Copy, PartialEq, Eq)]
pub enum Capability {
    Members,
    References,
    Implementors,
    Modules,
    TypeAlias,
    TestFixtures,
    Complexity,
    EditPlan,
}

/// What a client needs to know about one language: its name, the entries
/// that select it, and what its queries support.
#[derive(Debug, PartialEq, Eq)]
pub struct LanguageInfo {
    pub name: String,
    pub extensions: Vec<String>,
    pub capabilities: Vec<Capability>,
}

impl LanguageInfo {
    /// The description of a configured language; no capability is derived
    /// yet.
    pub fn from_language(l: &LanguageEntry) -> (r: Self)
        ensures
            r.name@ == l@.id,
            views(r.extensions@) == entry_displays(l@.extensions),
            r.capabilities@.len() == 0,
    {
        LanguageInfo {
            name: l.id().to_string(),
            extensions: display_entries(l.extensions()),
            capabilities: Vec::new(),
        }
    }
}

/// How a requested language stands: usable, unknown (with near names), or
/// configured but its grammar failed to load.
#[derive(Debug, PartialEq, Eq)]
pub enum LanguageStatus {
    Loaded { info: LanguageInfo },
    NotConfigured { suggestions: Vec<String> },
    LoadFailed { language: String, reason: String },
}

/// `st` is the status owed for the requested id `q` by languages `s`
/// with libraries under `dir` (file extension `ext`): not configured, with the near names among
/// `available`; loaded, described as configured; or failed to load, with
/// the library's path.
pub open spec fn status_for(
    st: LanguageStatus,
    s: Seq<LanguageView>,
    dir: Seq<char>,
    ext: Seq<char>,
    available: Seq<Seq<char>>,
    q: Seq<char>,
) -> bool {
    match crate::engine::key_index(s, q) {
        None => st matches LanguageStatus::NotConfigured { suggestions: x } && views(x@)
            == suggestions(available, q),
        Some(i) => match st {
            LanguageStatus::Loaded { info } => info.name@ == s[i].id && views(info.extensions@)
                == entry_displays(s[i].extensions) && info.capabilities@.len() == 0,
            LanguageStatus::LoadFailed { language, reason } => language@ == q && !s[i].loaded
                && reason@ == "failed to load grammar library `"@ + crate::paths::joined(
                dir,
                crate::language::library_filename_of(s[i].id, ext),
            ) + "`"@,
            LanguageStatus::NotConfigured { .. } => false,
        },
    }
}

/// The status of `id`: not configured (with suggestions among
/// `available`), or loaded now or before, or failed to load.
pub fn language_status<F: Fn(&LoadRequest) -> Result<tree_sitter::Language, LoadGrammarError>>(
    engine: &mut GrammarEngine,
    id: &LanguageId,
    available: &Vec<LanguageId>,
    open: &F,
) -> (r: LanguageStatus)
    requires
        forall|req: &LoadRequest| open.requires((req,)),
    ensures
        only_loaded_more(old(engine).languages(), final(engine).languages()),
        final(engine).grammar_dir() == old(engine).grammar_dir(),
        final(engine).library_ext() == old(engine).library_ext(),
        status_for(
            r,
            old(engine).languages(),
            old(engine).grammar_dir(),
            old(engine).library_ext(),
            id_views(available@),
            id@,
        ),
        match crate::engine::key_index(old(engine).languages(), id@) {
            None => final(engine).languages() == old(engine).languages(),
            Some(i) => match r {
                LanguageStatus::Loaded { .. } => final(engine).languages()[i].loaded && (final(engine).languages()
                    == old(engine).languages() || final(engine).languages() == mark_loaded(
                    old(engine).languages(),
                    i,
                )) && (!old(engine).languages()[i].loaded ==> open_gave(
                    |req: LoadRequest, o: Result<tree_sitter::Language, LoadGrammarError>|
                        open.ensures((&req,), o),
                    old(engine).grammar_dir(),
                    old(engine).library_ext(),
                    old(engine).languages()[i].id,
                    true,
                )),
                LanguageStatus::LoadFailed { .. } => final(engine).languages() == old(
                    engine,
                ).languages() && open_gave(
                    |req: LoadRequest, o: Result<tree_sitter::Language, LoadGrammarError>|
                        open.ensures((&req,), o),
                    old(engine).grammar_dir(),
                    old(engine).library_ext(),
                    old(engine).languages()[i].id,
                    false,
                ),
                LanguageStatus::NotConfigured { .. } => false,
            },
        },
{
    let meta = match engine.language(id.as_str()) {
        Some(m) => m.clone(),
        None => {
            return LanguageStatus::NotConfigured { suggestions: suggest_near(id, available) };
        },
    };
    let ghost before = engine.languages();
    let outcome = engine.load_language(id.as_str(), open);
    let ghost og = outcome;
    proof {
        let i = crate::engine::key_index(before, id@)->0;
        lemma_load_outcome_only_loads(
            before,
            engine.languages(),
            engine.grammar_dir(),
            engine.library_ext(),
            i,
            og,
        );
        if !before[i].loaded {
            let f = |req: LoadRequest, o: Result<tree_sitter::Language, LoadGrammarError>|
                open.ensures((&req,), o);
            let req = choose|req: LoadRequest|
                #[trigger] request_for(req, engine.grammar_dir(), engine.library_ext(), before[i].id)
                    && match og {
                    Ok(_) => exists|g: tree_sitter::Language| f(req, Ok(g)),
                    Err(e) => e matches GrammarError::LoadGrammar { source, .. } && f(req, Err(source)),
                };
            match og {
                Ok(_) => {},
                Err(e) => {
                    match e {
                        GrammarError::LoadGrammar { source, .. } => {
                            assert(f(req, Err(source)));
                        },
                        _ => {},
                    }
                },
            }
        }
    }
    match outcome {
        Ok(_) => LanguageStatus::Loaded { info: LanguageInfo::from_language(&meta) },
        Err(err) => LanguageStatus::LoadFailed { language: id.to_string(), reason: err.message() },
    }
}

/// The ids a capabilities request covers: every configured id
/// (sorted) when the request names none, else the requested ids that are
/// not empty, in order.
pub open spec fn requested_ids(available: Seq<Seq<char>>, languages: Seq<Seq<char>>) -> Seq<Seq<char>> {
    if languages.len() == 0 {
        available.filter(|s: Seq<char>| s.len() > 0)
    } else {
        languages.filter(|s: Seq<char>| s.len() > 0)
    }
}

/// The non-empty strings among `v` as language ids, in order.
fn valid_ids(v: &Vec<String>) -> (r: Vec<LanguageId>)
    ensures
        id_views(r@) == views(v@).filter(|s: Seq<char>| s.len() > 0),
{
    let mut out: Vec<LanguageId> = Vec::new();
    let mut i: usize = 0;
    while i < v.len()
        invariant
            i <= v@.len(),
            id_views(out@) == views(v@).take(i as int).filter(|s: Seq<char>| s.len() > 0),
        decreases v@.len() - i,
    {
        proof {
            let t = views(v@).take(i + 1);
            assert(t.drop_last() =~= views(v@).take(i as int));
            reveal_with_fuel(Seq::filter, 1);
            assert(t.filter(|s: Seq<char>| s.len() > 0) == if v@[i as int]@.len() > 0 {
                t.drop_last().filter(|s: Seq<char>| s.len() > 0).push(v@[i as int]@)
            } else {
                t.drop_last().filter(|s: Seq<char>| s.len() > 0)
            });
        }
        match LanguageId::new(v[i].as_str()) {
            Ok(id) => {
                let ghost before = out@;
                out.push(id);
                proof {
                    assert(id_views(out@) =~= id_views(before).push(id@));
                }
            },
            Err(_) => {},
        }
        i = i + 1;
    }
    proof {
        assert(views(v@).take(v@.len() as int) =~= views(v@));
    }
    out
}

/// Status `st` for the requested id `q` agrees with what opening libraries
/// gave (`open`), for languages `s` with libraries under `dir` (extension
/// `ext`): a language reported loaded was loaded already or its library
/// gave a grammar; one reported as failing to load is one whose library
/// gave a failure.
pub open spec fn status_agrees(
    open: spec_fn(LoadRequest, Result<tree_sitter::Language, LoadGrammarError>) -> bool,
    s: Seq<LanguageView>,
    dir: Seq<char>,
    ext: Seq<char>,
    q: Seq<char>,
    st: LanguageStatus,
) -> bool {
    match crate::engine::key_index(s, q) {
        None => true,
        Some(j) => match st {
            LanguageStatus::Loaded { .. } => s[j].loaded || open_gave(open, dir, ext, s[j].id, true),
            LanguageStatus::LoadFailed { .. } => open_gave(open, dir, ext, s[j].id, false),
            LanguageStatus::NotConfigured { .. } => true,
        },
    }
}

/// Answers a capabilities request: one status per requested language, in
/// request order; an empty request covers every configured language.
pub fn capabilities<F: Fn(&LoadRequest) -> Result<tree_sitter::Language, LoadGrammarError>>(
    engine: &mut GrammarEngine,
    languages: &Vec<String>,
    open: &F,
) -> (r: Vec<LanguageStatus>)
    requires
        forall|req: &LoadRequest| open.requires((req,)),
    ensures
        only_loaded_more(old(engine).languages(), final(engine).languages()),
        final(engine).grammar_dir() == old(engine).grammar_dir(),
        final(engine).library_ext() == old(engine).library_ext(),
        exists|available: Seq<Seq<char>>|
            {
                &&& (forall|k: Seq<char>| #[trigger] available.contains(k) <==> has_key(
                    old(engine).languages(),
                    k,
                ))
                &&& crate::order::sorted(available)
                &&& r@.len() == requested_ids(available, views(languages@)).len()
                &&& forall|k: int|
                    0 <= k < r@.len() ==> status_for(
                        #[trigger] r@[k],
                        old(engine).languages(),
                        old(engine).grammar_dir(),
                        old(engine).library_ext(),
                        available.filter(|s: Seq<char>| s.len() > 0),
                        requested_ids(available, views(languages@))[k],
                    )
                &&& forall|k: int|
                    0 <= k < r@.len() && #[trigger] r@[k] is Loaded ==> (crate::engine::key_index(
                        old(engine).languages(),
                        requested_ids(available, views(languages@))[k],
                    ) matches Some(j) && final(engine).languages()[j].loaded)
                &&& forall|k: int|
                    0 <= k < r@.len() ==> status_agrees(
                        |req: LoadRequest, o: Result<tree_sitter::Language, LoadGrammarError>|
                            open.ensures((&req,), o),
                        old(engine).languages(),
                        old(engine).grammar_dir(),
                        old(engine).library_ext(),
                        requested_ids(available, views(languages@))[k],
                        #[trigger] r@[k],
                    )
            },
{
    let keys = engine.available_ids();
    let available = valid_ids(&keys);
    let requested = if languages.len() == 0 {
        valid_ids(&keys)
    } else {
        valid_ids(languages)
    };
    let ghost old_langs = engine.languages();
    let ghost old_dir = engine.grammar_dir();
    let ghost old_ext = engine.library_ext();
    let ghost req = requested_ids(views(keys@), views(languages@));
    let ghost avail = views(keys@).filter(|s: Seq<char>| s.len() > 0);
    engine.keys_are_unique();
    let mut out: Vec<LanguageStatus> = Vec::new();
    let mut i: usize = 0;
    while i < requested.len()
        invariant
            id_views(requested@) == req,
            id_views(available@) == avail,
            i <= requested@.len(),
            out@.len() == i,
            keys_unique(old_langs),
            only_loaded_more(old_langs, engine.languages()),
            engine.grammar_dir() == old_dir,
            engine.library_ext() == old_ext,
            forall|k: int|
                0 <= k < i ==> status_for(#[trigger] out@[k], old_langs, old_dir, old_ext, avail, req[k]),
            forall|k: int|
                0 <= k < i && #[trigger] out@[k] is Loaded ==> (crate::engine::key_index(
                    old_langs,
                    req[k],
                ) matches Some(j) && engine.languages()[j].loaded),
            engine.languages().len() == old_langs.len(),
            forall|j: int|
                0 <= j < old_langs.len() && #[trigger] engine.languages()[j].loaded ==> old_langs[j].loaded
                    || open_gave(
                    |req: LoadRequest, o: Result<tree_sitter::Language, LoadGrammarError>|
                        open.ensures((&req,), o),
                    old_dir,
                    old_ext,
                    old_langs[j].id,
                    true,
                ),
            forall|k: int|
                0 <= k < i ==> status_agrees(
                    |req: LoadRequest, o: Result<tree_sitter::Language, LoadGrammarError>|
                        open.ensures((&req,), o),
                    old_langs,
                    old_dir,
                    old_ext,
                    req[k],
                    #[trigger] out@[k],
                ),
            forall|req: &LoadRequest| open.requires((req,)),
        decreases requested@.len() - i,
    {
        let ghost cur = engine.languages();
        let st = language_status(engine, &requested[i], &available, open);
        proof {
            let q = req[i as int];
            assert(id_views(requested@)[i as int] == requested@[i as int]@);
            lemma_only_loaded_more_keeps_lookups(old_langs, cur, q);
            lemma_only_loaded_more_transitive(old_langs, cur, engine.languages());
            match crate::engine::key_index(old_langs, q) {
                Some(j) => {
                    assert(cur[j].id == old_langs[j].id);
                    assert(cur[j].extensions == old_langs[j].extensions);
                },
                None => {},
            }
            assert(status_for(st, old_langs, old_dir, old_ext, avail, q));
            assert forall|k: int|
                0 <= k < i && #[trigger] out@[k] is Loaded implies (crate::engine::key_index(
                    old_langs,
                    req[k],
                ) matches Some(j) && engine.languages()[j].loaded) by {
                let j = crate::engine::key_index(old_langs, req[k])->0;
                assert(cur[j].loaded);
            }
            let f = |req: LoadRequest, o: Result<tree_sitter::Language, LoadGrammarError>|
                open.ensures((&req,), o);
            match crate::engine::key_index(old_langs, q) {
                Some(j) => {
                    assert(cur[j].id == old_langs[j].id);
                    if st is Loaded {
                        if !cur[j].loaded {
                            assert(open_gave(f, old_dir, old_ext, cur[j].id, true));
                        }
                        assert(status_agrees(f, old_langs, old_dir, old_ext, q, st));
                    }
                    assert forall|x: int|
                        0 <= x < old_langs.len() && #[trigger] engine.languages()[x].loaded implies old_langs[x].loaded
                            || open_gave(f, old_dir, old_ext, old_langs[x].id, true) by {
                        if x != j {
                            assert(engine.languages()[x] == cur[x]);
                        } else if !cur[j].loaded {
                            assert(open_gave(f, old_dir, old_ext, cur[j].id, true));
                        }
                    }
                },
                None => {},
            }
            assert(status_agrees(f, old_langs, old_dir, old_ext, q, st));
        }
        out.push(st);
        i = i + 1;
    }
    out
}

/// An optional language id from a request, checked.
#[derive(Debug)]
pub struct ResolvedLanguage(pub Option<LanguageId>);

impl ResolvedLanguage {
    /// Checks an optional requested language; an empty id is refused with
    /// the message shown to the client.
    pub fn from_params(language: &Option<String>) -> (r: Result<Self, String>)
        ensures
            match language {
                None => r matches Ok(x) && x.0 is None,
                Some(s) => if s@.len() > 0 {
                    r matches Ok(x) && x.0 matches Some(id) && id@ == s@
                } else {
                    r matches Err(m) && m@ == "invalid language id `"@ + s@ + "`: "@
                        + "unknown language "@ + s@
                },
            },
    {
        match language {
            None => Ok(ResolvedLanguage(None)),
            Some(s) => match LanguageId::new(s.as_str()) {
                Ok(id) => Ok(ResolvedLanguage(Some(id))),
                Err(e) => {
                    let mut m = owned("invalid language id `");
                    m.append(s.as_str());
                    m.append("`: ");
                    let detail = e.message();
                    m.append(detail.as_str());
                    Err(m)
                },
            },
        }
    }

    /// The id, if one was requested.
    pub fn as_ref(&self) -> (r: Option<&LanguageId>)
        ensures
            match r {
                Some(id) => self.0 matches Some(x) && x@ == id@,
                None => self.0 is None,
            },
    {
        match &self.0 {
            Some(id) => Some(id),
            None => None,
        }
    }
}

} // verus!


