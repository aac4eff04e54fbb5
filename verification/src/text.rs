//! Character-level string helpers with their specifications.

use vstd::prelude::*;

verus! {

/// `String::push` appends one character.
pub assume_specification[ String::push ](s: &mut String, ch: char)
    ensures
        final(s)@ == old(s)@.push(ch),
;

/// The ASCII digit for `d`, for `d < 10`.
pub open spec fn digit_char(d: nat) -> char {
    if d == 0 {
        '0'
    } else if d == 1 {
        '1'
    } else if d == 2 {
        '2'
    } else if d == 3 {
        '3'
    } else if d == 4 {
        '4'
    } else if d == 5 {
        '5'
    } else if d == 6 {
        '6'
    } else if d == 7 {
        '7'
    } else if d == 8 {
        '8'
    } else {
        '9'
    }
}

/// The decimal rendering of `n`, without leading zeros.
pub open spec fn decimal(n: nat) -> Seq<char>
    decreases n,
{
    if n < 10 {
        seq![digit_char(n)]
    } else {
        decimal(n / 10).push(digit_char(n % 10))
    }
}

fn digit(d: usize) -> (c: char)
    requires
        d < 10,
    ensures
        c == digit_char(d as nat),
{
    if d == 0 {
        '0'
    } else if d == 1 {
        '1'
    } else if d == 2 {
        '2'
    } else if d == 3 {
        '3'
    } else if d == 4 {
        '4'
    } else if d == 5 {
        '5'
    } else if d == 6 {
        '6'
    } else if d == 7 {
        '7'
    } else if d == 8 {
        '8'
    } else {
        '9'
    }
}

/// Appends the decimal rendering of `n` to `s`.
pub fn push_decimal(s: &mut String, n: usize)
    ensures
        final(s)@ == old(s)@ + decimal(n as nat),
    decreases n,
{
    if n >= 10 {
        push_decimal(s, n / 10);
    }
    s.push(digit(n % 10));
    proof {
        assert(old(s)@ + decimal(n as nat) =~= (if n >= 10 {
            old(s)@ + decimal((n / 10) as nat)
        } else {
            old(s)@
        }).push(digit_char((n % 10) as nat)));
    }
}

/// The decimal rendering of `n` as a new string.
pub fn usize_to_string(n: usize) -> (r: String)
    ensures
        r@ == decimal(n as nat),
{
    let mut s = String::new();
    push_decimal(&mut s, n);
    proof {
        assert(Seq::<char>::empty() + decimal(n as nat) =~= decimal(n as nat));
    }
    s
}

/// A string whose characters are `cs`.
pub fn string_from_chars(cs: &[char]) -> (r: String)
    ensures
        r@ == cs@,
{
    let mut s = String::new();
    let mut i: usize = 0;
    while i < cs.len()
        invariant
            i <= cs@.len(),
            s@ == cs@.take(i as int),
        decreases cs@.len() - i,
    {
        s.push(cs[i]);
        i = i + 1;
        proof {
            assert(cs@.take(i as int) =~= cs@.take((i - 1) as int).push(cs@[i - 1]));
        }
    }
    proof {
        assert(cs@.take(cs@.len() as int) =~= cs@);
    }
    s
}

/// The characters of `s`, one per element.
pub fn chars_of(s: &str) -> (r: Vec<char>)
    ensures
        r@ == s@,
{
    let n = s.unicode_len();
    let mut out: Vec<char> = Vec::new();
    let mut i: usize = 0;
    while i < n
        invariant
            n == s@.len(),
            i <= n,
            out@ == s@.take(i as int),
        decreases n - i,
    {
        out.push(s.get_char(i));
        i = i + 1;
        proof {
            assert(s@.take(i as int) =~= s@.take((i - 1) as int).push(s@[i - 1]));
        }
    }
    proof {
        assert(s@.take(n as int) =~= s@);
    }
    out
}

/// The number of characters kept by [`truncated_text`].
pub const TRUNCATED_LEN: usize = 50;

/// At most the first fifty characters of `text`.
pub open spec fn truncated(text: Seq<char>) -> Seq<char> {
    if text.len() <= TRUNCATED_LEN {
        text
    } else {
        text.take(TRUNCATED_LEN as int)
    }
}

/// Shortens `text` to at most fifty characters, keeping its beginning.
pub fn truncated_text(text: &str) -> (r: String)
    ensures
        r@ == truncated(text@),
        r@.len() <= TRUNCATED_LEN,
        r@ =~= text@.take(r@.len() as int),
{
    let n = text.unicode_len();
    let limit = if n < TRUNCATED_LEN {
        n
    } else {
        TRUNCATED_LEN
    };
    let mut s = String::new();
    let mut i: usize = 0;
    while i < limit
        invariant
            n == text@.len(),
            limit <= n,
            limit <= TRUNCATED_LEN,
            i <= limit,
            s@ == text@.take(i as int),
        decreases limit - i,
    {
        s.push(text.get_char(i));
        i = i + 1;
        proof {
            assert(text@.take(i as int) =~= text@.take((i - 1) as int).push(text@[i - 1]));
        }
    }
    proof {
        if n <= TRUNCATED_LEN {
            assert(text@.take(n as int) =~= text@);
        }
    }
    s
}


/// The views of a sequence of strings.
pub open spec fn views(v: Seq<String>) -> Seq<Seq<char>> {
    v.map_values(|x: String| x@)
}

/// `parts` joined with `sep` between consecutive parts.
pub open spec fn join_with(parts: Seq<Seq<char>>, sep: Seq<char>) -> Seq<char>
    decreases parts.len(),
{
    if parts.len() == 0 {
        Seq::empty()
    } else if parts.len() == 1 {
        parts[0]
    } else {
        join_with(parts.drop_last(), sep) + sep + parts.last()
    }
}

/// Joins `parts` with `sep` between consecutive parts.
pub fn join_strings(parts: &Vec<String>, sep: &str) -> (r: String)
    ensures
        r@ == join_with(views(parts@), sep@),
{
    let mut s = String::new();
    let mut i: usize = 0;
    while i < parts.len()
        invariant
            i <= parts@.len(),
            s@ == join_with(views(parts@).take(i as int), sep@),
        decreases parts@.len() - i,
    {
        proof {
            let pre = views(parts@).take(i as int);
            let next = views(parts@).take((i + 1) as int);
            assert(next.drop_last() =~= pre);
            assert(next.last() == parts@[i as int]@);
            if i == 0 {
                assert(pre =~= Seq::<Seq<char>>::empty());
            }
        }
        if i > 0 {
            s.append(sep);
        }
        s.append(parts[i].as_str());
        i = i + 1;
    }
    proof {
        assert(views(parts@).take(parts@.len() as int) =~= views(parts@));
    }
    s
}

/// `s` with every `from` replaced by `to`.
pub open spec fn replaced(s: Seq<char>, from: char, to: char) -> Seq<char> {
    s.map_values(|c: char| if c == from { to } else { c })
}

/// Replaces every occurrence of the character `from` in `s` with `to`.
pub fn replace_char(s: &str, from: char, to: char) -> (r: String)
    ensures
        r@ == replaced(s@, from, to),
{
    let cs = chars_of(s);
    let mut out = String::new();
    let mut i: usize = 0;
    while i < cs.len()
        invariant
            cs@ == s@,
            i <= cs@.len(),
            out@ == replaced(s@, from, to).take(i as int),
        decreases cs@.len() - i,
    {
        let c = cs[i];
        if c == from {
            out.push(to);
        } else {
            out.push(c);
        }
        i = i + 1;
        proof {
            assert(replaced(s@, from, to).take(i as int) =~= replaced(s@, from, to).take(
                (i - 1) as int,
            ).push(replaced(s@, from, to)[i - 1]));
        }
    }
    proof {
        assert(replaced(s@, from, to).take(cs@.len() as int) =~= replaced(s@, from, to));
    }
    out
}

/// Whether `s` contains the character `c`.
pub fn has_char(s: &str, c: char) -> (r: bool)
    ensures
        r == s@.contains(c),
{
    let cs = chars_of(s);
    let mut i: usize = 0;
    while i < cs.len()
        invariant
            cs@ == s@,
            i <= cs@.len(),
            forall|j: int| 0 <= j < i ==> cs@[j] != c,
        decreases cs@.len() - i,
    {
        if cs[i] == c {
            proof {
                assert(s@[i as int] == c);
            }
            return true;
        }
        i = i + 1;
    }
    false
}

/// Whether the two strings hold the same characters.
pub fn str_eq(a: &str, b: &str) -> (r: bool)
    ensures
        r == (a@ == b@),
{
    let x = chars_of(a);
    let y = chars_of(b);
    if x.len() != y.len() {
        return false;
    }
    let mut i: usize = 0;
    while i < x.len()
        invariant
            x@ == a@,
            y@ == b@,
            x@.len() == y@.len(),
            i <= x@.len(),
            forall|j: int| 0 <= j < i ==> x@[j] == y@[j],
        decreases x@.len() - i,
    {
        if x[i] != y[i] {
            return false;
        }
        i = i + 1;
    }
    proof {
        assert(a@ =~= b@);
    }
    true
}

/// A new string holding the characters of `s`.
pub fn owned(s: &str) -> (r: String)
    ensures
        r@ == s@,
{
    let mut r = String::new();
    r.append(s);
    proof {
        assert(Seq::<char>::empty() + s@ =~= s@);
    }
    r
}

/// The view of an optional string.
pub open spec fn opt_view(s: Option<&str>) -> Option<Seq<char>> {
    match s {
        Some(t) => Some(t@),
        None => None,
    }
}

/// `s` as Rust's `Debug` for `str` writes it: in double quotes, with
/// the characters that form requires escaped.
pub uninterp spec fn debug_str(s: Seq<char>) -> Seq<char>;

/// `format!("{:?}", s)`: `s` as `Debug` for `str` writes it.
#[verifier::external_body]
pub(crate) fn debug_quote(s: &str) -> (r: String)
    ensures
        r@ == debug_str(s@),
{
    format!("{:?}", s)
}

/// A list of strings as written in messages: each quoted, separated by a
/// comma and a space, in square brackets.
pub open spec fn quoted_list(parts: Seq<Seq<char>>) -> Seq<char> {
    seq!['['] + join_with(parts.map_values(|p: Seq<char>| debug_str(p)), ", "@) + seq![']']
}

/// A list of strings as written in messages: each quoted, separated by a
/// comma and a space, in square brackets.
pub fn quote_list(parts: &Vec<String>) -> (r: String)
    ensures
        r@ == quoted_list(views(parts@)),
{
    let mut qs: Vec<String> = Vec::new();
    let mut i: usize = 0;
    while i < parts.len()
        invariant
            i <= parts@.len(),
            qs@.len() == i,
            forall|k: int| 0 <= k < i ==> (#[trigger] qs@[k])@ == debug_str(parts@[k]@),
        decreases parts@.len() - i,
    {
        qs.push(debug_quote(parts[i].as_str()));
        i = i + 1;
    }
    let body = join_strings(&qs, ", ");
    proof {
        assert(views(qs@) =~= views(parts@).map_values(|p: Seq<char>| debug_str(p)));
    }
    let mut r = String::new();
    r.push('[');
    r.append(body.as_str());
    r.push(']');
    proof {
        assert(r@ =~= quoted_list(views(parts@)));
    }
    r
}

/// The number of bytes UTF-8 takes for `c`.
pub open spec fn utf8_width(c: char) -> nat {
    let v = c as int;
    if v < 0x80 {
        1
    } else if v < 0x800 {
        2
    } else if v < 0x10000 {
        3
    } else {
        4
    }
}

/// The length of `s` in UTF-8 bytes.
pub open spec fn utf8_len(s: Seq<char>) -> nat
    decreases s.len(),
{
    if s.len() == 0 {
        0
    } else {
        utf8_len(s.drop_last()) + utf8_width(s.last())
    }
}

/// The text of `s` (encoded as UTF-8) between the byte offsets `start`
/// and `end`, when both fall, in order, on character boundaries of `s`.
pub open spec fn byte_slice(s: Seq<char>, start: int, end: int) -> Option<Seq<char>> {
    if exists|i: int, j: int|
        #![trigger utf8_len(s.take(i)), utf8_len(s.take(j))]
        0 <= i <= j <= s.len() && utf8_len(s.take(i)) == start && utf8_len(s.take(j)) == end {
        let (i, j) = choose|i: int, j: int|
            #![trigger utf8_len(s.take(i)), utf8_len(s.take(j))]
            0 <= i <= j <= s.len() && utf8_len(s.take(i)) == start && utf8_len(s.take(j)) == end;
        Some(s.subrange(i, j))
    } else {
        None
    }
}

/// `str::get` over the byte range `start..end`: the text there, or `None`
/// where indexing with that range would panic (out of bounds, reversed,
/// or not on character boundaries), as std documents.
#[verifier::external_body]
pub(crate) fn str_get(s: &str, start: usize, end: usize) -> (r: Option<String>)
    ensures
        match r {
            Some(t) => byte_slice(s@, start as int, end as int) == Some(t@),
            None => byte_slice(s@, start as int, end as int) is None,
        },
{
    s.get(start..end).map(|t| t.to_string())
}

} // verus!
