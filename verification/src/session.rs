//! A parsed source file and what can be asked of it: the S-expression of
//! its tree, the chain of nodes at a byte, and the matches of a query.

use vstd::prelude::*;
use crate::engine::{resolve_error, resolved_index, GrammarEngine};
use crate::error::GrammarError;
use crate::language::{LanguageEntry, LanguageView};
use crate::text::{
    byte_slice, decimal, opt_view, owned, push_decimal, str_get, truncated, truncated_text, utf8_len,
};
use crate::ts;
use tree_sitter::StreamingIterator;

verus! {

/// A row and column in a source file, both counted from zero.
#[derive(Debug, Clone, Copy, PartialEq, Eq)]
pub struct PointDef {
    pub row: usize,
    pub column: usize,
}

/// A `[start, end)` byte range within a source file.
#[derive(Debug, Clone, Copy, PartialEq, Eq)]
pub struct ByteRange {
    pub start: usize,
    pub end: usize,
}

impl ByteRange {
    /// The range as shown to clients: `start..end`.
    pub fn display(&self) -> (r: String)
        ensures
            r@ == decimal(self.start as nat) + ".."@ + decimal(self.end as nat),
    {
        let mut r = String::new();
        push_decimal(&mut r, self.start);
        r.append("..");
        push_decimal(&mut r, self.end);
        proof {
            assert(Seq::<char>::empty() + decimal(self.start as nat) =~= decimal(self.start as nat));
        }
        r
    }
}

/// A request for a file's syntax tree, or the part of it covering a
/// byte range.
#[derive(Debug, PartialEq, Eq)]
pub struct DumpAstParams {
    pub path: String,
    pub language: Option<String>,
    pub range: Option<ByteRange>,
}

/// A request to run a tree-sitter query against a file, or against the
/// part of it covering a byte range.
#[derive(Debug, PartialEq, Eq)]
pub struct RunQueryParams {
    pub path: String,
    pub language: Option<String>,
    pub query: String,
    pub range: Option<ByteRange>,
}

/// A request for the node at a byte offset of a file and its ancestors.
#[derive(Debug, PartialEq, Eq)]
pub struct FindNodeParams {
    pub path: String,
    pub language: Option<String>,
    pub byte: usize,
}

/// What is reported of one node of a parse tree.
#[derive(Debug, PartialEq, Eq)]
pub struct NodeInfo {
    pub kind: String,
    pub start_byte: usize,
    pub end_byte: usize,
    pub start_point: PointDef,
    pub end_point: PointDef,
    pub text: String,
}

/// The text shown for a node whose bytes are not UTF-8.
pub open spec fn invalid_utf8_text() -> Seq<char> {
    "<invalid utf8>"@
}

/// The line shown for a node: `kind@start..end: text`, the text cut to
/// fifty characters.
pub open spec fn node_line(n: NodeInfo) -> Seq<char> {
    n.kind@ + "@"@ + decimal(n.start_byte as nat) + ".."@ + decimal(n.end_byte as nat) + ": "@
        + truncated(n.text@)
}

impl NodeInfo {
    /// A node's report from its parts; text that is not UTF-8 (`None`) is
    /// shown as `<invalid utf8>`.
    pub fn from_parts(
        kind: String,
        start_byte: usize,
        end_byte: usize,
        start_point: PointDef,
        end_point: PointDef,
        text: Option<String>,
    ) -> (r: Self)
        ensures
            r.kind@ == kind@,
            r.start_byte == start_byte,
            r.end_byte == end_byte,
            r.start_point == start_point,
            r.end_point == end_point,
            r.text@ == match text {
                Some(t) => t@,
                None => invalid_utf8_text(),
            },
    {
        let text = match text {
            Some(t) => t,
            None => owned("<invalid utf8>"),
        };
        NodeInfo { kind, start_byte, end_byte, start_point, end_point, text }
    }

    /// The line shown for this node.
    pub fn display(&self) -> (r: String)
        ensures
            r@ == node_line(*self),
    {
        let mut r = self.kind.clone();
        r.append("@");
        push_decimal(&mut r, self.start_byte);
        r.append("..");
        push_decimal(&mut r, self.end_byte);
        r.append(": ");
        let t = truncated_text(self.text.as_str());
        r.append(t.as_str());
        r
    }
}

/// The node at a byte offset and its ancestors: innermost first, the
/// root last.
#[derive(Debug, PartialEq, Eq)]
pub struct FindNodeResult {
    pub ancestors: Vec<NodeInfo>,
}

/// Two spaces per level of depth.
pub open spec fn indent(depth: nat) -> Seq<char>
    decreases depth,
{
    if depth == 0 {
        Seq::empty()
    } else {
        indent((depth - 1) as nat) + "  "@
    }
}

/// The lines of a chain shown root first, each indented one level deeper
/// than the one before, for the first `n` lines.
pub open spec fn chain_lines(ancestors: Seq<NodeInfo>, n: nat) -> Seq<char>
    decreases n,
{
    if n == 0 || n > ancestors.len() {
        Seq::empty()
    } else {
        chain_lines(ancestors, (n - 1) as nat) + indent((n - 1) as nat) + node_line(
            ancestors[ancestors.len() - n],
        ) + "\n"@
    }
}

/// A chain as shown to clients: a heading with the number of nodes, then
/// the nodes from the root down.
pub open spec fn chain_text(ancestors: Seq<NodeInfo>) -> Seq<char> {
    "Ancestor chain ("@ + decimal(ancestors.len()) + " nodes):\n"@ + chain_lines(
        ancestors,
        ancestors.len(),
    )
}

fn push_indent(s: &mut String, depth: usize)
    ensures
        final(s)@ == old(s)@ + indent(depth as nat),
    decreases depth,
{
    if depth > 0 {
        push_indent(s, depth - 1);
        s.append("  ");
    } else {
        proof {
            assert(old(s)@ + Seq::<char>::empty() =~= old(s)@);
        }
    }
}

impl FindNodeResult {
    /// The chain as shown to clients.
    pub fn display(&self) -> (r: String)
        ensures
            r@ == chain_text(self.ancestors@),
    {
        let n = self.ancestors.len();
        let mut r = owned("Ancestor chain (");
        push_decimal(&mut r, n);
        r.append(" nodes):\n");
        let ghost head = r@;
        let mut k: usize = 0;
        proof {
            assert(head + chain_lines(self.ancestors@, 0) =~= head);
        }
        while k < n
            invariant
                n == self.ancestors@.len(),
                k <= n,
                head == "Ancestor chain ("@ + decimal(n as nat) + " nodes):\n"@,
                r@ == head + chain_lines(self.ancestors@, k as nat),
            decreases n - k,
        {
            push_indent(&mut r, k);
            let line = self.ancestors[n - 1 - k].display();
            r.append(line.as_str());
            r.append("\n");
            k = k + 1;
            proof {
                assert(r@ =~= head + chain_lines(self.ancestors@, k as nat));
            }
        }
        r
    }
}

/// One captured node of a query match.
#[derive(Debug, PartialEq, Eq)]
pub struct Capture {
    pub name: String,
    pub start_byte: usize,
    pub end_byte: usize,
    pub start_point: PointDef,
    pub end_point: PointDef,
    pub text: String,
}

/// One match of a query: the pattern that matched and what it captured.
#[derive(Debug, PartialEq, Eq)]
pub struct QueryMatch {
    pub pattern_index: usize,
    pub captures: Vec<Capture>,
}

/// The text shown for the bytes `start..end` of `source`: that text, or
/// `<invalid utf8>` where the range does not fall on character
/// boundaries within `source`.
pub open spec fn shown_text(source: Seq<char>, start: int, end: int) -> Seq<char> {
    match byte_slice(source, start, end) {
        Some(t) => t,
        None => invalid_utf8_text(),
    }
}

/// `byte` lies within a file of `len` bytes (the end included).
pub fn check_byte_in_bounds(byte: usize, len: usize) -> (r: Result<(), GrammarError>)
    ensures
        r is Ok <==> byte <= len,
        r matches Err(e) ==> (e matches GrammarError::ByteOutOfBounds { byte: b, len: l } && b
            == byte && l == len),
{
    if byte > len {
        Err(GrammarError::ByteOutOfBounds { byte, len })
    } else {
        Ok(())
    }
}

/// The report of `node`, whose byte range is `start..end`: its kind and
/// points, that range, and the text of `source` in it.
fn node_info(node: &tree_sitter::Node<'_>, start: usize, end: usize, source: &str) -> (r: NodeInfo)
    ensures
        r.start_byte == start,
        r.end_byte == end,
        r.text@ == shown_text(source@, start as int, end as int),
{
    let (sr, sc) = ts::node_start_position(node);
    let (er, ec) = ts::node_end_position(node);
    NodeInfo::from_parts(
        ts::node_kind(node),
        start,
        end,
        PointDef { row: sr, column: sc },
        PointDef { row: er, column: ec },
        str_get(source, start, end),
    )
}

/// A node's byte range `start..end` covers the range `a..b`.
pub open spec fn covers(start: int, end: int, a: int, b: int) -> bool {
    start <= a && b <= end
}

/// A requested byte range as a pair of offsets.
pub open spec fn span_of(range: Option<ByteRange>) -> Option<(usize, usize)> {
    match range {
        Some(g) => Some((g.start, g.end)),
        None => None,
    }
}

/// Node `outer`'s byte range encloses node `inner`'s.
pub open spec fn encloses(outer: NodeInfo, inner: NodeInfo) -> bool {
    outer.start_byte <= inner.start_byte && inner.end_byte <= outer.end_byte
}

/// Each node of a chain after the first encloses the one before it.
pub open spec fn chain_nested(s: Seq<NodeInfo>) -> bool {
    forall|k: int| 0 <= k < s.len() - 1 ==> encloses(#[trigger] s[k + 1], s[k])
}

/// What is reported of a capture is sound: a range whose start does not
/// pass its end, and the source's text in it.
pub open spec fn capture_sound(c: Capture, source: Seq<char>) -> bool {
    &&& c.start_byte <= c.end_byte
    &&& c.text@ == shown_text(source, c.start_byte as int, c.end_byte as int)
}

/// A capture as the query cursor gives it: the capture's name, and the
/// captured node's byte range and points.
pub struct RawCapture {
    pub name: String,
    pub start_byte: usize,
    pub end_byte: usize,
    pub start_point: PointDef,
    pub end_point: PointDef,
}

/// A match as the query cursor gives it.
pub struct RawMatch {
    pub pattern_index: usize,
    pub captures: Vec<RawCapture>,
}

/// Capture `c` is what is reported for `x` of `source`: its name, range
/// and points, and the text of `source` in the range.
pub open spec fn capture_from(c: Capture, x: RawCapture, source: Seq<char>) -> bool {
    &&& c.name@ == x.name@
    &&& c.start_byte == x.start_byte
    &&& c.end_byte == x.end_byte
    &&& c.start_point == x.start_point
    &&& c.end_point == x.end_point
    &&& c.text@ == shown_text(source, x.start_byte as int, x.end_byte as int)
}

/// Match `m` is what is reported for `x`: its pattern, and each capture in
/// order as `capture_from` reports it.
pub open spec fn match_from(m: QueryMatch, x: RawMatch, source: Seq<char>) -> bool {
    &&& m.pattern_index == x.pattern_index
    &&& m.captures@.len() == x.captures@.len()
    &&& forall|j: int|
        0 <= j < m.captures@.len() ==> capture_from(#[trigger] m.captures@[j], x.captures@[j], source)
}

/// `ms` is what is reported for the matches `raw`, one for one and in
/// order.
pub open spec fn matches_from(ms: Seq<QueryMatch>, raw: Seq<RawMatch>, source: Seq<char>) -> bool {
    &&& ms.len() == raw.len()
    &&& forall|i: int| 0 <= i < ms.len() ==> match_from(#[trigger] ms[i], raw[i], source)
}

/// Every capture of `raw` has a range whose start does not pass its end,
/// within `a..b`.
pub open spec fn raws_within(raw: Seq<RawMatch>, a: int, b: int) -> bool {
    forall|i: int, j: int|
        0 <= i < raw.len() && 0 <= j < raw[i].captures@.len() ==> {
            let x = #[trigger] raw[i].captures@[j];
            &&& x.start_byte <= x.end_byte
            &&& a <= x.start_byte
            &&& x.end_byte <= b
        }
}

/// `ms` answers a query over `source` whose cursor gave the matches
/// `raw`, searching the node `a..b` picked for `span` in a tree whose root
/// spans `root_start..root_end`: `ms` reports `raw` one for one, and every
/// captured range lies within the searched node.
pub open spec fn query_answer(
    ms: Seq<QueryMatch>,
    raw: Seq<RawMatch>,
    source: Seq<char>,
    span: Option<(usize, usize)>,
    root_start: int,
    root_end: int,
    a: int,
    b: int,
) -> bool {
    &&& matches_from(ms, raw, source)
    &&& searched_span(span, root_start, root_end, a, b)
    &&& raws_within(raw, a, b)
}

/// The capture reported for `raw`: its name, range and points, and the
/// text of `source` in the range.
pub fn capture_of(raw: &RawCapture, source: &str) -> (r: Capture)
    ensures
        capture_from(r, *raw, source@),
{
    let text = match str_get(source, raw.start_byte, raw.end_byte) {
        Some(t) => t,
        None => owned("<invalid utf8>"),
    };
    Capture {
        name: raw.name.clone(),
        start_byte: raw.start_byte,
        end_byte: raw.end_byte,
        start_point: raw.start_point,
        end_point: raw.end_point,
        text,
    }
}

/// The match reported for `raw`: its pattern, and each capture in order as
/// `capture_of` reports it.
pub fn match_of(raw: &RawMatch, source: &str) -> (r: QueryMatch)
    ensures
        match_from(r, *raw, source@),
{
    let mut captures: Vec<Capture> = Vec::new();
    let mut j: usize = 0;
    while j < raw.captures.len()
        invariant
            j <= raw.captures@.len(),
            captures@.len() == j,
            forall|k: int| 0 <= k < j ==> capture_from(#[trigger] captures@[k], raw.captures@[k], source@),
        decreases raw.captures@.len() - j,
    {
        captures.push(capture_of(&raw.captures[j], source));
        j = j + 1;
    }
    QueryMatch { pattern_index: raw.pattern_index, captures }
}

/// The matches reported for the matches `raw` of `source`: one for each,
/// in order, as `match_of` reports it.
pub fn matches_of(raw: &Vec<RawMatch>, source: &str) -> (r: Vec<QueryMatch>)
    ensures
        matches_from(r@, raw@, source@),
{
    let mut out: Vec<QueryMatch> = Vec::new();
    let mut i: usize = 0;
    while i < raw.len()
        invariant
            i <= raw@.len(),
            out@.len() == i,
            forall|k: int| 0 <= k < i ==> match_from(#[trigger] out@[k], raw@[k], source@),
        decreases raw@.len() - i,
    {
        out.push(match_of(&raw[i], source));
        i = i + 1;
    }
    out
}

/// A source file parsed with a grammar.
pub struct ParseSession {
    grammar: tree_sitter::Language,
    source: String,
    tree: tree_sitter::Tree,
    /// Where the tree's root starts, in bytes.
    start: usize,
    /// Where the tree's root ends, in bytes.
    end: usize,
}

/// `Tree::root_node` of the session's tree, with its byte range, which
/// the session recorded when it was made.
#[verifier::external_body]
fn session_root<'a>(s: &'a ParseSession) -> (r: (tree_sitter::Node<'a>, usize, usize))
    ensures
        r.1 == s.start_byte(),
        r.2 == s.end_byte(),
{
    let root = s.tree.root_node();
    (root, root.start_byte(), root.end_byte())
}

/// `Node::descendant_for_byte_range(start, end)` on the root of the
/// session's tree, with the byte range of the node it gives. The offsets
/// must fit in 32 bits, as tree-sitter cuts them to that width. tree-sitter
/// descends only into children that reach back to `start` and forward to
/// `end`, and stays at the root otherwise; it gives no node only when
/// `start > end`. Every node lies within the root.
#[verifier::external_body]
fn root_descendant<'a>(s: &'a ParseSession, start: usize, end: usize) -> (r: Option<(tree_sitter::Node<'a>, usize, usize)>)
    requires
        start <= u32::MAX,
        end <= u32::MAX,
    ensures
        start <= end ==> r is Some,
        r matches Some((_, a, b)) ==> s.start_byte() <= a && a <= b && b <= s.end_byte() && (covers(
            a as int,
            b as int,
            start as int,
            end as int,
        ) || (a == s.start_byte() && b == s.end_byte())),
{
    match s.tree.root_node().descendant_for_byte_range(start, end) {
        Some(d) => Some((d, d.start_byte(), d.end_byte())),
        None => None,
    }
}

/// `Node::named_descendant_for_byte_range(start, end)` on the root of the
/// session's tree, with the byte range of the node it gives: as
/// `root_descendant`, with only named nodes (or the root) given.
#[verifier::external_body]
fn root_named_descendant<'a>(s: &'a ParseSession, start: usize, end: usize) -> (r: Option<(tree_sitter::Node<'a>, usize, usize)>)
    requires
        start <= u32::MAX,
        end <= u32::MAX,
    ensures
        start <= end ==> r is Some,
        r matches Some((_, a, b)) ==> s.start_byte() <= a && a <= b && b <= s.end_byte() && (covers(
            a as int,
            b as int,
            start as int,
            end as int,
        ) || (a == s.start_byte() && b == s.end_byte())),
{
    match s.tree.root_node().named_descendant_for_byte_range(start, end) {
        Some(d) => Some((d, d.start_byte(), d.end_byte())),
        None => None,
    }
}

/// The byte range `a..b` of the node a search runs in: the root of a
/// tree spanning `root_start..root_end` when no range is given, else the
/// node `Node::descendant_for_byte_range` finds for the range (one that
/// covers it, or the root).
pub open spec fn searched_span(range: Option<(usize, usize)>, root_start: int, root_end: int, a: int, b: int) -> bool {
    &&& a <= b
    &&& match range {
        None => a == root_start && b == root_end,
        Some((x, y)) => covers(a, b, x as int, y as int) || (a == root_start && b == root_end),
    }
}

/// The matches of query `q` within the root of the session's tree, or
/// within `Node::descendant_for_byte_range(start, end)` of the root when
/// `range` is `(start, end)` (which gives a node, as `start <= end`), as a fresh
/// `tree_sitter::QueryCursor` yields them over the session's source, each
/// capture with the name `Query::capture_names` gives its index and its
/// node's byte range and points; also the byte range of the node searched.
/// The cursor walks only that node's subtree, and a node lies within its
/// parent, so every captured range lies within the searched node's; a
/// node's start never lies past its end.
#[verifier::external_body]
fn session_query_matches(s: &ParseSession, q: &tree_sitter::Query, range: Option<(usize, usize)>) -> (r: (usize, usize, Vec<RawMatch>))
    requires
        range matches Some((a, b)) ==> a <= b && b <= u32::MAX,
    ensures
        searched_span(range, s.start_byte() as int, s.end_byte() as int, r.0 as int, r.1 as int),
        raws_within(r.2@, r.0 as int, r.1 as int),
{
    let root = s.tree.root_node();
    let node = match range {
        Some((a, b)) => root.descendant_for_byte_range(a, b).unwrap(),
        None => root,
    };
    let mut cursor = tree_sitter::QueryCursor::new();
    let mut it = cursor.matches(q, node, s.source.as_bytes());
    let names = q.capture_names();
    let mut out = Vec::new();
    while let Some(m) = it.next() {
        let captures = m.captures().iter().map(|c| raw_capture(names[c.index as usize], &c.node)).collect();
        out.push(RawMatch { pattern_index: m.pattern_index, captures });
    }
    (node.start_byte(), node.end_byte(), out)
}

/// The capture of `node` under the capture name `name`, with the node's
/// byte range (`Node::start_byte`, `Node::end_byte`) and points
/// (`Node::start_position`, `Node::end_position`). A node's start never
/// lies past its end.
#[verifier::external_body]
fn raw_capture(name: &str, node: &tree_sitter::Node<'_>) -> (r: RawCapture)
    ensures
        r.name@ == name@,
        r.start_byte <= r.end_byte,
{
    let (s, e) = (node.start_position(), node.end_position());
    RawCapture {
        name: name.to_string(),
        start_byte: node.start_byte(),
        end_byte: node.end_byte(),
        start_point: PointDef { row: s.row, column: s.column },
        end_point: PointDef { row: e.row, column: e.column },
    }
}

impl ParseSession {
    #[verifier::type_invariant]
    closed spec fn inv(self) -> bool {
        self.start <= self.end <= u32::MAX
    }

    /// Parses `source` with the grammar of `language`, which must be loaded.
    /// A loaded grammar is refused only by the parser (an ABI version out
    /// of range is always refused); otherwise the source is parsed.
    pub fn new(language: &LanguageEntry, source: String) -> (r: Result<Self, GrammarError>)
        ensures
            !language@.loaded ==> (r matches Err(GrammarError::GrammarNotLoaded(id)) && id@
                == language@.id),
            r matches Ok(s) ==> s.source()@ == source@ && s.start_byte() <= s.end_byte() && (utf8_len(
                source@,
            ) <= u32::MAX ==> s.end_byte() == utf8_len(source@)),
            language@.loaded ==> (r is Ok || r matches Err(GrammarError::SetLanguage(_))),
    {
        let grammar = match language.grammar() {
            Some(g) => ts::grammar_clone(g),
            None => {
                return Err(GrammarError::GrammarNotLoaded(language.id().to_string()));
            },
        };
        let (_abi, parsed) = ts::parse_text(&grammar, source.as_str());
        let (tree, start, end) = match parsed {
            Err(m) => {
                return Err(GrammarError::SetLanguage(m));
            },
            Ok(Some(t)) => t,
            Ok(None) => {
                return Err(GrammarError::ParseReturnedNoTree);
            },
        };
        Ok(ParseSession { grammar, source, tree, start, end })
    }

    /// Where the tree's root starts, in bytes.
    pub closed spec fn start_byte(&self) -> usize {
        self.start
    }

    /// Where the tree's root ends, in bytes: the last offset that can be
    /// looked up.
    pub closed spec fn end_byte(&self) -> usize {
        self.end
    }

    /// Where the tree's root ends, in bytes.
    pub fn root_end(&self) -> (r: usize)
        ensures
            r == self.end_byte(),
            self.start_byte() <= self.end_byte() <= u32::MAX,
    {
        proof {
            use_type_invariant(self);
        }
        self.end
    }

    /// The source text.
    pub closed spec fn source(&self) -> String {
        self.source
    }

    /// The source text.
    pub fn source_text(&self) -> (r: &str)
        ensures
            r@ == self.source()@,
    {
        self.source.as_str()
    }

    /// The root, or the smallest node covering `range` when one is given
    /// (the root when tree-sitter finds none, and when the range reaches
    /// past the 32-bit offsets a tree can hold, which no node covers), with
    /// its byte range.
    fn apply_range<'a>(&'a self, range: Option<ByteRange>) -> (r: (tree_sitter::Node<'a>, usize, usize))
        ensures
            r.1 <= r.2,
            match range {
                None => r.1 == self.start_byte() && r.2 == self.end_byte(),
                Some(g) => covers(r.1 as int, r.2 as int, g.start as int, g.end as int) || (r.1
                    == self.start_byte() && r.2 == self.end_byte()),
            },
    {
        proof {
            use_type_invariant(self);
        }
        match range {
            Some(g) => if g.start <= u32::MAX as usize && g.end <= u32::MAX as usize {
                match root_descendant(self, g.start, g.end) {
                    Some(found) => found,
                    None => session_root(self),
                }
            } else {
                session_root(self)
            },
            None => session_root(self),
        }
    }

    /// The report of the smallest node covering `range`, or of the root
    /// when no node covers it.
    pub fn node_covering(&self, range: ByteRange) -> (r: NodeInfo)
        ensures
            r.start_byte <= r.end_byte,
            covers(r.start_byte as int, r.end_byte as int, range.start as int, range.end as int) || (
            r.start_byte == self.start_byte() && r.end_byte == self.end_byte()),
            r.text@ == shown_text(self.source()@, r.start_byte as int, r.end_byte as int),
    {
        let (node, a, b) = self.apply_range(Some(range));
        node_info(&node, a, b, self.source.as_str())
    }

    /// The S-expression of the tree, or of the smallest node covering
    /// `range`.
    pub fn dump_ast(&self, range: Option<ByteRange>) -> (r: String)
        ensures
            r@.len() > 0 && r@[0] == '(',
    {
        let (node, _, _) = self.apply_range(range);
        ts::node_to_sexp(&node)
    }

    /// The smallest named node at `byte` and its ancestors up to the root.
    /// A byte past the end of the file is refused. Each node after the first
    /// is the parent of the one before it, whose range it encloses, and the
    /// last one spans the root's range.
    pub fn find_node(&self, byte: usize) -> (r: Result<FindNodeResult, GrammarError>)
        ensures
            r is Ok <==> byte <= self.end_byte(),
            match r {
                Ok(res) => {
                    &&& res.ancestors@.len() >= 1
                    &&& chain_nested(res.ancestors@)
                    &&& res.ancestors@.last().start_byte == self.start_byte()
                    &&& res.ancestors@.last().end_byte == self.end_byte()
                    &&& covers(
                        res.ancestors@[0].start_byte as int,
                        res.ancestors@[0].end_byte as int,
                        byte as int,
                        byte as int,
                    ) || (res.ancestors@[0].start_byte == self.start_byte()
                        && res.ancestors@[0].end_byte == self.end_byte())
                    &&& forall|k: int|
                        0 <= k < res.ancestors@.len() ==> {
                            let n = #[trigger] res.ancestors@[k];
                            &&& n.start_byte <= n.end_byte
                            &&& n.text@ == shown_text(
                                self.source()@,
                                n.start_byte as int,
                                n.end_byte as int,
                            )
                        }
                },
                Err(e) => e matches GrammarError::ByteOutOfBounds { byte: b, len } && b == byte
                    && len == self.end_byte(),
            },
    {
        match check_byte_in_bounds(byte, self.end) {
            Ok(()) => {},
            Err(e) => {
                return Err(e);
            },
        }
        proof {
            use_type_invariant(self);
        }
        let (node, a, b) = match root_named_descendant(self, byte, byte) {
            Some(found) => found,
            None => session_root(self),
        };
        let mut ancestors: Vec<NodeInfo> = Vec::new();
        ancestors.push(node_info(&node, a, b, self.source.as_str()));
        let mut lo = a;
        let mut hi = b;
        let mut next = ts::node_parent(&node);
        // A parse tree is far shallower than this bound; it only makes the
        // walk's end evident.
        while next.is_some() && ancestors.len() < usize::MAX
            invariant
                1 <= ancestors@.len() <= usize::MAX,
                next matches Some((_, x, y)) ==> x <= y,
                ancestors@.last().start_byte == lo && ancestors@.last().end_byte == hi,
                self.start_byte() <= lo && hi <= self.end_byte(),
                chain_nested(ancestors@),
                covers(ancestors@[0].start_byte as int, ancestors@[0].end_byte as int, byte as int, byte as int)
                    || (ancestors@[0].start_byte == self.start_byte() && ancestors@[0].end_byte
                    == self.end_byte()),
                forall|k: int|
                    0 <= k < ancestors@.len() ==> {
                        let n = #[trigger] ancestors@[k];
                        &&& n.start_byte <= n.end_byte
                        &&& n.text@ == shown_text(self.source()@, n.start_byte as int, n.end_byte as int)
                    },
            decreases usize::MAX - ancestors@.len(), if next is Some { 1int } else { 0int },
        {
            let (n, x, y) = next.unwrap();
            // tree-sitter keeps every node within its parent, and every
            // node within the root; the chain relies on that only as far as
            // this check confirms it.
            if x <= lo && hi <= y && self.start <= x && y <= self.end {
                let ghost before = ancestors@;
                ancestors.push(node_info(&n, x, y, self.source.as_str()));
                proof {
                    assert forall|k: int| 0 <= k < ancestors@.len() - 1 implies encloses(
                        #[trigger] ancestors@[k + 1],
                        ancestors@[k],
                    ) by {
                        if k + 1 < before.len() {
                            assert(ancestors@[k + 1] == before[k + 1]);
                        }
                    }
                }
                lo = x;
                hi = y;
                next = ts::node_parent(&n);
            } else {
                next = None;
            }
        }
        // The walk ends at the root, which has no parent; should it stop
        // anywhere else, the chain is closed with the root.
        if !(lo == self.start && hi == self.end) {
            let (root, x, y) = session_root(self);
            let ghost before = ancestors@;
            ancestors.push(node_info(&root, x, y, self.source.as_str()));
            proof {
                assert forall|k: int| 0 <= k < ancestors@.len() - 1 implies encloses(
                    #[trigger] ancestors@[k + 1],
                    ancestors@[k],
                ) by {
                    if k + 1 < before.len() {
                        assert(ancestors@[k + 1] == before[k + 1]);
                    }
                }
            }
        }
        Ok(FindNodeResult { ancestors })
    }

    /// The matches of `query` in the tree, or within the smallest node
    /// covering `range`. A query that does not compile is refused with the
    /// compiler's report; every capture reports a range of the source within
    /// the node searched, and the source's text in it.
    pub fn run_query(&self, query: &str, range: Option<ByteRange>) -> (r: Result<Vec<QueryMatch>, GrammarError>)
        ensures
            r matches Err(e) ==> e is Query,
            r is Ok ==> exists|raw: Seq<RawMatch>, a: int, b: int|
                #[trigger] query_answer(
                    r->Ok_0@,
                    raw,
                    self.source()@,
                    span_of(range),
                    self.start_byte() as int,
                    self.end_byte() as int,
                    a,
                    b,
                ),
            r matches Ok(ms) ==> forall|i: int, j: int|
                0 <= i < ms@.len() && 0 <= j < ms@[i].captures@.len() ==> capture_sound(
                    #[trigger] ms@[i].captures@[j],
                    self.source()@,
                ),
    {
        let q = match ts::query_new(&self.grammar, query) {
            Ok(q) => q,
            Err(f) => {
                return Err(GrammarError::Query(f));
            },
        };
        // A reversed range is covered by no node, nor is one reaching past
        // the 32-bit offsets a tree can hold: the search then runs on the
        // root.
        let span = match range {
            Some(g) => if g.start <= g.end && g.end <= u32::MAX as usize {
                Some((g.start, g.end))
            } else {
                None
            },
            None => None,
        };
        let (lo, hi, raw) = session_query_matches(self, &q, span);
        let out = matches_of(&raw, self.source.as_str());
        proof {
            assert(searched_span(span_of(range), self.start_byte() as int, self.end_byte() as int, lo as int, hi as int));
            assert(query_answer(
                out@,
                raw@,
                self.source()@,
                span_of(range),
                self.start_byte() as int,
                self.end_byte() as int,
                lo as int,
                hi as int,
            ));

            assert forall|i: int, j: int|
                0 <= i < out@.len() && 0 <= j < out@[i].captures@.len() implies capture_sound(
                    #[trigger] out@[i].captures@[j],
                    self.source()@,
                ) by {
                assert(match_from(out@[i], raw@[i], self.source()@));
                assert(capture_from(out@[i].captures@[j], raw@[i].captures@[j], self.source()@));
                let x = raw@[i].captures@[j];
                assert(x.start_byte <= x.end_byte);
            }
        }
        let res: Result<Vec<QueryMatch>, GrammarError> = Ok(out);
        proof {
            assert(query_answer(
                res->Ok_0@,
                raw@,
                self.source()@,
                span_of(range),
                self.start_byte() as int,
                self.end_byte() as int,
                lo as int,
                hi as int,
            ));
        }
        res
    }
}

/// What reading a file gave, as text: its contents, or why it could not
/// be read.
pub open spec fn read_view(source: Result<String, String>) -> Result<Seq<char>, Seq<char>> {
    match source {
        Ok(t) => Ok(t@),
        Err(m) => Err(m@),
    }
}

/// Parsing the file at `path` stops before the parser runs: no language
/// fits, the language's grammar is not loaded, or the file could not be
/// read.
pub open spec fn refused_before_parse(
    s: Seq<LanguageView>,
    path: Seq<char>,
    requested: Option<Seq<char>>,
    source: Result<Seq<char>, Seq<char>>,
) -> bool {
    match resolved_index(s, path, requested) {
        None => true,
        Some(i) => !s[i].loaded || source is Err,
    }
}

/// `e` is how that stop is reported: as `resolve` reports it, as the
/// grammar not being loaded, or as the read failure with the file's path.
pub open spec fn refusal_matches(
    e: GrammarError,
    s: Seq<LanguageView>,
    path: Seq<char>,
    requested: Option<Seq<char>>,
    source: Result<Seq<char>, Seq<char>>,
) -> bool {
    match resolved_index(s, path, requested) {
        None => resolve_error(e, path, requested),
        Some(i) => if !s[i].loaded {
            e matches GrammarError::GrammarNotLoaded(id) && id@ == s[i].id
        } else {
            match source {
                Err(m) => e matches GrammarError::SourceRead(p, why) && p@ == path && why@ == m,
                Ok(_) => false,
            }
        },
    }
}

impl GrammarEngine {
    /// The file at `path`, whose reading gave `source`, parsed with the
    /// language `resolve` picks; its grammar must be loaded already.
    fn parse_file(&self, path: &str, language: Option<&str>, source: Result<String, String>) -> (r:
        Result<ParseSession, GrammarError>)
        ensures
            refused_before_parse(self.languages(), path@, opt_view(language), read_view(source))
                ==> (r matches Err(e) && refusal_matches(
                e,
                self.languages(),
                path@,
                opt_view(language),
                read_view(source),
            )),
            !refused_before_parse(self.languages(), path@, opt_view(language), read_view(source))
                ==> match r {
                Ok(p) => source matches Ok(t) && p.source()@ == t@ && (utf8_len(t@) <= u32::MAX
                    ==> p.end_byte() == utf8_len(t@)),
                Err(e) => e is SetLanguage,
            },
    {
        let entry = match self.resolve(path, language) {
            Ok(l) => l,
            Err(e) => {
                return Err(e);
            },
        };
        if !entry.is_loaded() {
            return Err(GrammarError::GrammarNotLoaded(entry.id().to_string()));
        }
        let text = match source {
            Ok(t) => t,
            Err(m) => {
                return Err(GrammarError::SourceRead(owned(path), m));
            },
        };
        ParseSession::new(entry, text)
    }

    /// The S-expression of the file at `path` (whose reading gave
    /// `source`), or of its smallest node covering `range`.
    pub fn dump_ast(
        &self,
        path: &str,
        language: Option<&str>,
        source: Result<String, String>,
        range: Option<ByteRange>,
    ) -> (r: Result<String, GrammarError>)
        ensures
            refused_before_parse(self.languages(), path@, opt_view(language), read_view(source))
                ==> (r matches Err(e) && refusal_matches(
                e,
                self.languages(),
                path@,
                opt_view(language),
                read_view(source),
            )),
            !refused_before_parse(self.languages(), path@, opt_view(language), read_view(source))
                ==> match r {
                Ok(t) => t@.len() > 0 && t@[0] == '(',
                Err(e) => e is SetLanguage,
            },
    {
        let session = match self.parse_file(path, language, source) {
            Ok(s) => s,
            Err(e) => {
                return Err(e);
            },
        };
        Ok(session.dump_ast(range))
    }

    /// The node at `byte` in the file at `path` (whose reading gave
    /// `source`) and its ancestors up to the root.
    pub fn find_node(
        &self,
        path: &str,
        language: Option<&str>,
        source: Result<String, String>,
        byte: usize,
    ) -> (r: Result<FindNodeResult, GrammarError>)
        ensures
            refused_before_parse(self.languages(), path@, opt_view(language), read_view(source))
                ==> (r matches Err(e) && refusal_matches(
                e,
                self.languages(),
                path@,
                opt_view(language),
                read_view(source),
            )),
            !refused_before_parse(self.languages(), path@, opt_view(language), read_view(source))
                ==> match r {
                Ok(res) => res.ancestors@.len() >= 1 && chain_nested(res.ancestors@) && (utf8_len(
                    source->Ok_0@,
                ) <= u32::MAX ==> res.ancestors@.last().end_byte == utf8_len(source->Ok_0@))
                    && forall|k: int|
                    0 <= k < res.ancestors@.len() ==> {
                        let n = #[trigger] res.ancestors@[k];
                        &&& n.start_byte <= n.end_byte
                        &&& n.text@ == shown_text(
                            source->Ok_0@,
                            n.start_byte as int,
                            n.end_byte as int,
                        )
                    },
                Err(e) => e is SetLanguage || (e matches GrammarError::ByteOutOfBounds {
                    byte: b,
                    len,
                } && b == byte && byte > len && (utf8_len(source->Ok_0@) <= u32::MAX ==> len
                    == utf8_len(source->Ok_0@))),
            },
            !refused_before_parse(self.languages(), path@, opt_view(language), read_view(source))
                && utf8_len(source->Ok_0@) <= u32::MAX && !(r matches Err(GrammarError::SetLanguage(_)))
                ==> (r is Ok <==> byte <= utf8_len(source->Ok_0@)),
    {
        let session = match self.parse_file(path, language, source) {
            Ok(s) => s,
            Err(e) => {
                return Err(e);
            },
        };
        session.find_node(byte)
    }

    /// The matches of `query` in the file at `path` (whose reading gave
    /// `source`), or within its smallest node covering `range`.
    pub fn run_query(
        &self,
        path: &str,
        language: Option<&str>,
        source: Result<String, String>,
        query: &str,
        range: Option<ByteRange>,
    ) -> (r: Result<Vec<QueryMatch>, GrammarError>)
        ensures
            refused_before_parse(self.languages(), path@, opt_view(language), read_view(source))
                ==> (r matches Err(e) && refusal_matches(
                e,
                self.languages(),
                path@,
                opt_view(language),
                read_view(source),
            )),
            !refused_before_parse(self.languages(), path@, opt_view(language), read_view(source))
                ==> match r {
                Ok(ms) => (forall|i: int, j: int|
                    0 <= i < ms@.len() && 0 <= j < ms@[i].captures@.len() ==> capture_sound(
                        #[trigger] ms@[i].captures@[j],
                        source->Ok_0@,
                    )) && (exists|raw: Seq<RawMatch>, root_start: int, root_end: int, a: int, b: int|
                    #[trigger] query_answer(
                        ms@,
                        raw,
                        source->Ok_0@,
                        span_of(range),
                        root_start,
                        root_end,
                        a,
                        b,
                    ) && (utf8_len(source->Ok_0@) <= u32::MAX ==> root_end == utf8_len(
                        source->Ok_0@,
                    ))),
                Err(e) => e is SetLanguage || e is Query,
            },
    {
        let session = match self.parse_file(path, language, source) {
            Ok(s) => s,
            Err(e) => {
                return Err(e);
            },
        };
        let r = session.run_query(query, range);
        proof {
            if r is Ok {
                let (raw, a, b) = choose|raw: Seq<RawMatch>, a: int, b: int|
                    #[trigger] query_answer(
                        r->Ok_0@,
                        raw,
                        session.source()@,
                        span_of(range),
                        session.start_byte() as int,
                        session.end_byte() as int,
                        a,
                        b,
                    );
                assert(query_answer(
                    r->Ok_0@,
                    raw,
                    source->Ok_0@,
                    span_of(range),
                    session.start_byte() as int,
                    session.end_byte() as int,
                    a,
                    b,
                ));
            }
        }
        r
    }
}

} // verus!
