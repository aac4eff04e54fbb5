//! The language table of the configuration: which file extensions and
//! which path globs select each language.

use vstd::prelude::*;
use crate::text::{has_char, owned};

verus! {

// ---------------------------------------------------------------------
// globset
// ---------------------------------------------------------------------

/// What `globset` reports when it cannot build `pattern` with literal
/// separators (`None` when it builds).
pub uninterp spec fn glob_build_error(pattern: Seq<char>) -> Option<Seq<char>>;

/// Whether the glob `pattern`, built with literal separators, matches
/// `path` (false when the pattern does not build).
pub uninterp spec fn glob_matches(pattern: Seq<char>, path: Seq<char>) -> bool;

/// Builds `pattern` with `globset::GlobBuilder` (literal separators on) and
/// hands back the error's message if the build fails. The contract names
/// the outcome and states nothing about which patterns build.
#[verifier::external_body]
pub(crate) fn glob_check(pattern: &str) -> (r: Option<String>)
    ensures
        match r {
            None => glob_build_error(pattern@) is None,
            Some(m) => glob_build_error(pattern@) == Some(m@),
        },
{
    match globset::GlobBuilder::new(pattern).literal_separator(true).build() {
        Ok(_) => None,
        Err(e) => Some(e.to_string()),
    }
}

/// Builds `pattern` with `globset::GlobBuilder` (literal separators on),
/// puts it in a `globset::GlobSet` and tests `path` with
/// `GlobSet::is_match`. The contract names the answer and says only that
/// a pattern which does not build, or whose matcher does not build,
/// matches nothing.
#[verifier::external_body]
pub(crate) fn glob_is_match(pattern: &str, path: &str) -> (r: bool)
    ensures
        r == glob_matches(pattern@, path@),
        glob_build_error(pattern@) is Some ==> !r,
{
    match globset::GlobBuilder::new(pattern).literal_separator(true).build() {
        Ok(g) => match globset::GlobSetBuilder::new().add(g).build() {
            Ok(set) => set.is_match(path),
            Err(_) => false,
        },
        Err(_) => false,
    }
}

// ---------------------------------------------------------------------
// Entries
// ---------------------------------------------------------------------

/// One way of selecting a language: a plain file extension (without the
/// dot) or a glob over the whole relative path.
#[derive(Debug, PartialEq, Eq)]
pub enum ExtensionEntry {
    Glob { glob: String },
    Ext(String),
}

/// The abstract value of an [`ExtensionEntry`].
pub enum EntryView {
    Glob(Seq<char>),
    Ext(Seq<char>),
}

impl View for ExtensionEntry {
    type V = EntryView;

    open spec fn view(&self) -> EntryView {
        match self {
            ExtensionEntry::Glob { glob } => EntryView::Glob(glob@),
            ExtensionEntry::Ext(s) => EntryView::Ext(s@),
        }
    }
}

/// The abstract values of a sequence of entries.
pub open spec fn entry_views(es: Seq<ExtensionEntry>) -> Seq<EntryView> {
    es.map_values(|e: ExtensionEntry| e@)
}

impl Clone for ExtensionEntry {
    fn clone(&self) -> (r: Self)
        ensures
            r@ == self@,
    {
        match self {
            ExtensionEntry::Glob { glob } => ExtensionEntry::Glob { glob: glob.clone() },
            ExtensionEntry::Ext(s) => ExtensionEntry::Ext(s.clone()),
        }
    }
}

/// A copy of each entry.
pub fn clone_entries(es: &Vec<ExtensionEntry>) -> (r: Vec<ExtensionEntry>)
    ensures
        entry_views(r@) == entry_views(es@),
{
    let mut out: Vec<ExtensionEntry> = Vec::new();
    let mut i: usize = 0;
    while i < es.len()
        invariant
            i <= es@.len(),
            entry_views(out@) =~= entry_views(es@).take(i as int),
        decreases es@.len() - i,
    {
        let e = es[i].clone();
        let ghost before = out@;
        out.push(e);
        proof {
            assert(out@ =~= before.push(e));
            assert(entry_views(out@) =~= entry_views(before).push(e@));
            assert(entry_views(es@).take(i + 1) =~= entry_views(es@).take(i as int).push(
                es@[i as int]@,
            ));
        }
        i = i + 1;
    }
    proof {
        assert(entry_views(es@).take(es@.len() as int) =~= entry_views(es@));
    }
    out
}

/// How an entry is shown to clients: `.ext`, or `{ pattern }`.
pub open spec fn entry_display(e: EntryView) -> Seq<char> {
    match e {
        EntryView::Ext(s) => seq!['.'] + s,
        EntryView::Glob(g) => seq!['{', ' '] + g + seq![' ', '}'],
    }
}

impl ExtensionEntry {
    /// The entry as shown to clients.
    pub fn display(&self) -> (r: String)
        ensures
            r@ == entry_display(self@),
    {
        match self {
            ExtensionEntry::Ext(s) => {
                let mut r = String::new();
                r.push('.');
                r.append(s.as_str());
                proof {
                    assert(seq!['.'] + s@ =~= Seq::<char>::empty().push('.') + s@);
                }
                r
            },
            ExtensionEntry::Glob { glob } => {
                let mut r = String::new();
                r.push('{');
                r.push(' ');
                r.append(glob.as_str());
                r.push(' ');
                r.push('}');
                proof {
                    assert(seq!['{', ' '] + glob@ + seq![' ', '}'] =~= (Seq::<char>::empty().push(
                        '{',
                    ).push(' ') + glob@).push(' ').push('}'));
                }
                r
            },
        }
    }
}

/// A plain-extension entry. No check is made on `s`.
pub fn ext(s: &str) -> (r: ExtensionEntry)
    ensures
        r@ == EntryView::Ext(s@),
{
    ExtensionEntry::Ext(owned(s))
}

/// A glob entry for a pattern that builds.
pub fn glob(pattern: &str) -> (r: ExtensionEntry)
    requires
        glob_build_error(pattern@) is None,
    ensures
        r@ == EntryView::Glob(pattern@),
{
    ExtensionEntry::Glob { glob: owned(pattern) }
}

/// A glob entry for `pattern`, or the build error's message when the
/// pattern does not build.
pub fn glob_entry(pattern: &str) -> (r: Result<ExtensionEntry, String>)
    ensures
        match glob_build_error(pattern@) {
            None => r matches Ok(e) && e@ == EntryView::Glob(pattern@),
            Some(m) => r matches Err(x) && x@ == m,
        },
{
    match glob_check(pattern) {
        None => Ok(glob(pattern)),
        Some(m) => Err(m),
    }
}

/// A plain extension must be non-empty and hold none of `/ * ? [`.
pub open spec fn plain_ext_valid(s: Seq<char>) -> bool {
    &&& s.len() > 0
    &&& !s.contains('/')
    &&& !s.contains('*')
    &&& !s.contains('?')
    &&& !s.contains('[')
}

/// Whether `s` may stand as a plain extension.
pub fn is_valid_plain_ext(s: &str) -> (r: bool)
    ensures
        r == plain_ext_valid(s@),
{
    let bad = has_char(s, '/') || has_char(s, '*') || has_char(s, '?') || has_char(s, '[');
    let empty = s.unicode_len() == 0;
    !bad && !empty
}


// ---------------------------------------------------------------------
// Errors
// ---------------------------------------------------------------------

/// Why the configuration could not be obtained.
#[derive(Debug)]
pub enum ConfigError {
    /// No home directory to place the configuration under.
    ConfigDir(String),
    /// The configuration file could not be read: its path and the reason.
    ConfigRead(String, String),
    /// The file is not valid TOML, or a value has the wrong shape (a
    /// plain extension that is not one, a glob that does not build).
    Parse(String),
    MissingExtensionsTable,
    EmptyExtensions(String),
}

impl ConfigError {
    /// The message shown for this error.
    pub open spec fn message_spec(&self) -> Seq<char> {
        match self {
            ConfigError::ConfigDir(_) => "failed to choose config directory"@,
            ConfigError::ConfigRead(path, _) => "failed to read config file "@ + path@,
            ConfigError::Parse(m) => "TOML syntax error: "@ + m@,
            ConfigError::MissingExtensionsTable => "missing [extensions] table"@,
            ConfigError::EmptyExtensions(lang) => "empty extension array for language: "@
                + lang@,
        }
    }

    /// The message shown for this error.
    pub fn message(&self) -> (r: String)
        ensures
            r@ == self.message_spec(),
    {
        match self {
            ConfigError::ConfigDir(_) => owned("failed to choose config directory"),
            ConfigError::ConfigRead(path, _) => {
                let mut r = owned("failed to read config file ");
                r.append(path.as_str());
                r
            },
            ConfigError::Parse(m) => {
                let mut r = owned("TOML syntax error: ");
                r.append(m.as_str());
                r
            },
            ConfigError::MissingExtensionsTable => owned("missing [extensions] table"),
            ConfigError::EmptyExtensions(lang) => {
                let mut r = owned("empty extension array for language: ");
                r.append(lang.as_str());
                r
            },
        }
    }
}

// ---------------------------------------------------------------------
// The configuration document
// ---------------------------------------------------------------------

/// One value of a language's array in the configuration file, as read:
/// a bare string, or a table `{ glob = "..." }`.
#[derive(Debug)]
pub enum RawEntry {
    Plain(String),
    Glob(String),
}

/// The configuration file as read: the `[extensions]` table, if the file
/// has one, with its keys in the order given.
#[derive(Debug)]
pub struct ConfigDocument {
    pub extensions: Option<Vec<(String, Vec<RawEntry>)>>,
}

/// A table's keys are distinct.
pub open spec fn keys_distinct<V>(t: Seq<(String, V)>) -> bool {
    forall|i: int, j: int| 0 <= i < j < t.len() ==> t[i].0@ != t[j].0@
}

/// Whether a value read from the file is acceptable.
pub open spec fn raw_entry_valid(r: RawEntry) -> bool {
    match r {
        RawEntry::Plain(s) => plain_ext_valid(s@),
        RawEntry::Glob(g) => glob_build_error(g@) is None,
    }
}

/// The entry a value read from the file stands for.
pub open spec fn raw_entry_view(r: RawEntry) -> EntryView {
    match r {
        RawEntry::Plain(s) => EntryView::Ext(s@),
        RawEntry::Glob(g) => EntryView::Glob(g@),
    }
}

/// The index of the first unacceptable value in `es`, from `j` on.
pub open spec fn first_invalid_in(es: Seq<RawEntry>, j: int) -> Option<int>
    decreases es.len() - j,
{
    if j < 0 || j >= es.len() {
        None
    } else if !raw_entry_valid(es[j]) {
        Some(j)
    } else {
        first_invalid_in(es, j + 1)
    }
}

/// The position (language, value) of the first unacceptable value in the
/// table, in the order given, from language `i` on.
pub open spec fn first_invalid(t: Seq<(String, Vec<RawEntry>)>, i: int) -> Option<(int, int)>
    decreases t.len() - i,
{
    if i < 0 || i >= t.len() {
        None
    } else {
        match first_invalid_in(t[i].1@, 0) {
            Some(j) => Some((i, j)),
            None => first_invalid(t, i + 1),
        }
    }
}

/// The index of the first language with an empty array, from `i` on.
pub open spec fn first_empty(t: Seq<(String, Vec<RawEntry>)>, i: int) -> Option<int>
    decreases t.len() - i,
{
    if i < 0 || i >= t.len() {
        None
    } else if t[i].1@.len() == 0 {
        Some(i)
    } else {
        first_empty(t, i + 1)
    }
}

/// The error reported for the unacceptable value `r` of language `lang`.
pub open spec fn entry_error_matches(e: ConfigError, lang: String, r: RawEntry) -> bool {
    match r {
        RawEntry::Plain(_) => e matches ConfigError::Parse(m) && m@
            == "Invalid plain extension string"@,
        RawEntry::Glob(g) => e matches ConfigError::Parse(m) && glob_build_error(g@) == Some(m@),
    }
}

/// The language table of a document that passes every check.
pub open spec fn table_view(t: Seq<(String, Vec<RawEntry>)>) -> Seq<(Seq<char>, Seq<EntryView>)> {
    t.map_values(|p: (String, Vec<RawEntry>)| (p.0@, p.1@.map_values(|r: RawEntry| raw_entry_view(r))))
}

/// In a table whose keys are distinct, the language found under a key is
/// the one the file lists under it, with the entries listed for it: what
/// a lookup in the checked map gives back is what the file wrote.
pub proof fn law_lookup_gives_back_the_listed_entries(t: Seq<(String, Vec<RawEntry>)>, i: int, j: int)
    requires
        keys_distinct(t),
        0 <= i < t.len(),
        0 <= j < t.len(),
        table_view(t)[j].0 == t[i].0@,
    ensures
        j == i,
        table_view(t)[j].1 == t[i].1@.map_values(|r: RawEntry| raw_entry_view(r)),
{
    if i < j {
        assert(t[i].0@ != t[j].0@);
    } else if j < i {
        assert(t[j].0@ != t[i].0@);
    }
}

// ---------------------------------------------------------------------
// The map
// ---------------------------------------------------------------------

/// Language id to the entries that select it, in the order the configuration gives them.
#[derive(Debug)]
pub struct ExtensionMap {
    entries: Vec<(String, Vec<ExtensionEntry>)>,
}

/// The abstract value of a language table: its languages in order, each
/// with its entries.
pub open spec fn map_view(t: Seq<(String, Vec<ExtensionEntry>)>) -> Seq<(Seq<char>, Seq<EntryView>)> {
    t.map_values(|p: (String, Vec<ExtensionEntry>)| (p.0@, entry_views(p.1@)))
}

impl View for ExtensionMap {
    type V = Seq<(Seq<char>, Seq<EntryView>)>;

    closed spec fn view(&self) -> Seq<(Seq<char>, Seq<EntryView>)> {
        map_view(self.entries@)
    }
}

/// No language appears twice.
pub open spec fn languages_distinct(m: Seq<(Seq<char>, Seq<EntryView>)>) -> bool {
    forall|i: int, j: int| 0 <= i < j < m.len() ==> m[i].0 != m[j].0
}

impl ExtensionMap {
    #[verifier::type_invariant]
    closed spec fn inv(self) -> bool {
        keys_distinct(self.entries@)
    }

    /// The map with no languages.
    pub fn new() -> (r: Self)
        ensures
            r@ == Seq::<(Seq<char>, Seq<EntryView>)>::empty(),
    {
        let r = ExtensionMap { entries: Vec::new() };
        proof {
            assert(map_view(r.entries@) =~= Seq::<(Seq<char>, Seq<EntryView>)>::empty());
        }
        r
    }

    proof fn lemma_view_distinct(entries: Seq<(String, Vec<ExtensionEntry>)>)
        requires
            keys_distinct(entries),
        ensures
            languages_distinct(map_view(entries)),
    {
        assert forall|i: int, j: int| 0 <= i < j < map_view(entries).len() implies map_view(
            entries,
        )[i].0 != map_view(entries)[j].0 by {
            assert(map_view(entries)[i].0 == entries[i].0@);
            assert(map_view(entries)[j].0 == entries[j].0@);
        }
    }

    /// The number of languages.
    pub fn len(&self) -> (r: usize)
        ensures
            r == self@.len(),
    {
        self.entries.len()
    }

    /// Whether there are no languages.
    pub fn is_empty(&self) -> (r: bool)
        ensures
            r == (self@.len() == 0),
    {
        self.entries.len() == 0
    }

    /// The entries of language `lang`.
    pub fn get(&self, lang: &str) -> (r: Option<&Vec<ExtensionEntry>>)
        ensures
            match r {
                Some(v) => exists|i: int|
                    0 <= i < self@.len() && self@[i].0 == lang@ && #[trigger] self@[i].1
                        == entry_views(v@),
                None => forall|i: int| 0 <= i < self@.len() ==> #[trigger] self@[i].0 != lang@,
            },
    {
        let mut i: usize = 0;
        while i < self.entries.len()
            invariant
                i <= self.entries@.len(),
                forall|j: int| 0 <= j < i ==> #[trigger] self.entries@[j].0@ != lang@,
            decreases self.entries@.len() - i,
        {
            if crate::text::str_eq(self.entries[i].0.as_str(), lang) {
                proof {
                    assert(self@[i as int] == (self.entries@[i as int].0@, entry_views(
                        self.entries@[i as int].1@,
                    )));
                }
                assert(self@[i as int].0 == lang@);
                assert(self@[i as int].1 == entry_views(self.entries@[i as int].1@));
                assert(0 <= i < self@.len() && self@[i as int].0 == lang@ && self@[i as int].1
                    == entry_views(self.entries@[i as int].1@));
                return Some(&self.entries[i].1);
            }
            i = i + 1;
        }
        proof {
            assert forall|j: int| 0 <= j < self@.len() implies #[trigger] self@[j].0 != lang@ by {
                assert(self@[j].0 == self.entries@[j].0@);
            }
        }
        None
    }

    /// The languages with their entries, in order.
    pub fn into_pairs(self) -> (r: Vec<(String, Vec<ExtensionEntry>)>)
        ensures
            map_view(r@) == self@,
            languages_distinct(self@),
    {
        proof {
            use_type_invariant(&self);
            Self::lemma_view_distinct(self.entries@);
        }
        self.entries
    }

    /// Checks a configuration document and builds its language table.
    ///
    /// The checks run in the order the file is read: every value of every
    /// array first (an unacceptable plain extension is a parse error, a
    /// glob that does not build an invalid-glob error), then the presence
    /// of `[extensions]`, then that no array is empty.
    pub fn from_document(doc: ConfigDocument) -> (r: Result<Self, ConfigError>)
        requires
            doc.extensions matches Some(t) ==> keys_distinct(t@),
        ensures
            match doc.extensions {
                None => r matches Err(ConfigError::MissingExtensionsTable),
                Some(t) => match first_invalid(t@, 0) {
                    Some((i, j)) => r matches Err(e) && entry_error_matches(
                        e,
                        t@[i].0,
                        t@[i].1@[j],
                    ),
                    None => match first_empty(t@, 0) {
                        Some(i) => r matches Err(ConfigError::EmptyExtensions(l)) && l@ == t@[i].0@,
                        None => r matches Ok(m) && m@ == table_view(t@),
                    },
                },
            },
    {
        let t = match &doc.extensions {
            None => {
                return Err(ConfigError::MissingExtensionsTable);
            },
            Some(t) => t,
        };
        let mut i: usize = 0;
        while i < t.len()
            invariant
                doc.extensions == Some(*t),
                i <= t@.len(),
                first_invalid(t@, 0) == first_invalid(t@, i as int),
            decreases t@.len() - i,
        {
            let lang = &t[i].0;
            let raws = &t[i].1;
            let mut j: usize = 0;
            while j < raws.len()
                invariant
                    doc.extensions == Some(*t),
                    i < t@.len(),
                    raws@ == t@[i as int].1@,
                    lang@ == t@[i as int].0@,
                    j <= raws@.len(),
                    first_invalid_in(raws@, 0) == first_invalid_in(raws@, j as int),
                    first_invalid(t@, 0) == first_invalid(t@, i as int),
                decreases raws@.len() - j,
            {
                proof {
                    assert(t@[i as int].1@[j as int] == raws@[j as int]);
                    if !raw_entry_valid(raws@[j as int]) {
                        assert(first_invalid_in(raws@, j as int) == Some(j as int));
                        assert(first_invalid(t@, i as int) == Some((i as int, j as int)));
                    }
                }
                match &raws[j] {
                    RawEntry::Plain(s) => {
                        if !is_valid_plain_ext(s.as_str()) {
                            return Err(ConfigError::Parse(owned("Invalid plain extension string")));
                        }
                    },
                    RawEntry::Glob(g) => {
                        match glob_check(g.as_str()) {
                            Some(error) => {
                                return Err(ConfigError::Parse(error));
                            },
                            None => {},
                        }
                    },
                }
                j = j + 1;
            }
            proof {
                assert(first_invalid_in(raws@, j as int) is None);
                assert(first_invalid(t@, i as int) == first_invalid(t@, i + 1));
            }
            i = i + 1;
        }
        let mut k: usize = 0;
        while k < t.len()
            invariant
                doc.extensions == Some(*t),
                k <= t@.len(),
                first_invalid(t@, 0) is None,
                first_empty(t@, 0) == first_empty(t@, k as int),
            decreases t@.len() - k,
        {
            proof {
                assert(first_empty(t@, k as int) == if t@[k as int].1@.len() == 0 {
                    Some(k as int)
                } else {
                    first_empty(t@, k + 1)
                });
            }
            if t[k].1.len() == 0 {
                return Err(ConfigError::EmptyExtensions(t[k].0.clone()));
            }
            k = k + 1;
        }
        let mut entries: Vec<(String, Vec<ExtensionEntry>)> = Vec::new();
        let mut n: usize = 0;
        while n < t.len()
            invariant
                doc.extensions == Some(*t),
                n <= t@.len(),
                keys_distinct(t@),
                map_view(entries@) =~= table_view(t@).take(n as int),
                entries@.len() == n,
                forall|a: int| 0 <= a < n ==> #[trigger] entries@[a].0@ == t@[a].0@,
            decreases t@.len() - n,
        {
            let raws = &t[n].1;
            let mut converted: Vec<ExtensionEntry> = Vec::new();
            let mut j: usize = 0;
            while j < raws.len()
                invariant
                    n < t@.len(),
                    raws@ == t@[n as int].1@,
                    j <= raws@.len(),
                    entry_views(converted@) =~= raws@.map_values(|r: RawEntry| raw_entry_view(r)).take(
                        j as int,
                    ),
                decreases raws@.len() - j,
            {
                let e = match &raws[j] {
                    RawEntry::Plain(s) => ExtensionEntry::Ext(s.clone()),
                    RawEntry::Glob(g) => ExtensionEntry::Glob { glob: g.clone() },
                };
                let ghost before = converted@;
                converted.push(e);
                proof {
                    assert(converted@ =~= before.push(e));
                    assert(entry_views(converted@) =~= entry_views(before).push(e@));
                }
                j = j + 1;
            }
            proof {
                assert(raws@.map_values(|r: RawEntry| raw_entry_view(r)).take(raws@.len() as int)
                    =~= raws@.map_values(|r: RawEntry| raw_entry_view(r)));
            }
            let ghost before = entries@;
            entries.push((t[n].0.clone(), converted));
            proof {
                assert(map_view(entries@) =~= map_view(before).push(
                    (t@[n as int].0@, entry_views(converted@)),
                ));
            }
            n = n + 1;
        }
        proof {
            assert(table_view(t@).take(t@.len() as int) =~= table_view(t@));
            assert(keys_distinct(entries@));
        }
        Ok(ExtensionMap { entries })
    }
}

} // verus!
