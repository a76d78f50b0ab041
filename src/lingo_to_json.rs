use vstd::prelude::*;

use crate::error::LoadError;
use crate::text::{chars_of, string_of};

verus! {

/// How a character moves the bracket depth.
pub open spec fn depth_step(c: char) -> int {
    if c == '[' {
        1
    } else if c == ']' {
        -1
    } else {
        0
    }
}

/// Opened minus closed brackets in `s[from..to]`.
pub open spec fn balance(s: Seq<char>, from: int, to: int) -> int
    decreases to - from,
{
    if to <= from {
        0
    } else {
        balance(s, from, to - 1) + depth_step(s[to - 1])
    }
}

/// The `[` at `p` opens a property list: the key sigil `#` follows it directly.
pub open spec fn opens_map(s: Seq<char>, p: int) -> bool {
    0 <= p && p + 1 < s.len() && s[p] == '[' && s[p + 1] == '#'
}

/// The `]` at `q` is the bracket that matches the `[` at `p`: the first point
/// after `p` where the depth comes back to where it was before `p`.
pub open spec fn closes(s: Seq<char>, p: int, q: int) -> bool {
    &&& 0 <= p < q < s.len()
    &&& s[q] == ']'
    &&& balance(s, p, q + 1) == 0
    &&& forall|j: int| p < j <= q ==> #[trigger] balance(s, p, j) != 0
}

/// The `]` at `q` closes a property list.
pub open spec fn closes_map(s: Seq<char>, q: int) -> bool {
    exists|p: int| opens_map(s, p) && #[trigger] closes(s, p, q)
}

/// Every property list opened in `s` is closed.
pub open spec fn maps_balanced(s: Seq<char>) -> bool {
    forall|p: int| opens_map(s, p) ==> exists|q: int| #[trigger] closes(s, p, q)
}

/// The character at `k` once property-list brackets are rewritten to braces.
pub open spec fn reclassified_char(s: Seq<char>, k: int) -> char {
    if opens_map(s, k) {
        '{'
    } else if closes_map(s, k) {
        '}'
    } else {
        s[k]
    }
}

/// `s` with the brackets of every property list rewritten to braces, and
/// every other character kept.
pub open spec fn reclassified(s: Seq<char>) -> Seq<char> {
    Seq::new(s.len(), |k: int| reclassified_char(s, k))
}

/// Rewrites the brackets of property lists to braces in one left-to-right pass.
///
/// A `[` directly followed by the key sigil opens a property list and becomes
/// `{`; the `]` that matches it becomes `}`. Every other character is kept. A
/// stack holds the positions of the `[` not yet matched. A property list that
/// is never closed is a format error.
pub fn jsonify_lingo_objects(input: &[char]) -> (r: Result<Vec<char>, LoadError>)
    ensures
        r is Ok <==> maps_balanced(input@),
        r matches Ok(out) ==> out@ == reclassified(input@),
        r matches Err(e) ==> e == LoadError::Format,
{
    let ghost s = input@;
    let n = input.len();
    let mut out: Vec<char> = Vec::new();
    let mut open: Vec<usize> = Vec::new();
    let mut i: usize = 0;
    while i < n
        invariant
            s == input@,
            n == s.len(),
            i <= n,
            out@.len() == i,
            forall|k: int| 0 <= k < i ==> out@[k] == reclassified_char(s, k),
            forall|a: int, b: int| 0 <= a < b < open@.len() ==> open@[a] < open@[b],
            forall|a: int|
                0 <= a < open@.len() ==> open@[a] < i && s[open@[a] as int] == '[',
            forall|a: int|
                0 <= a < open@.len() ==> balance(s, open@[a] as int, i as int) == open@.len()
                    - a,
            forall|a: int, j: int|
                0 <= a < open@.len() && open@[a] < j <= i ==> #[trigger] balance(
                    s,
                    open@[a] as int,
                    j,
                ) != 0,
            forall|p: int|
                0 <= p < i && s[p] == '[' ==> (exists|a: int|
                    0 <= a < open@.len() && open@[a] == p) || (exists|q: int|
                    q < i && #[trigger] closes(s, p, q)),
        decreases n - i,
    {
        let c = input[i];
        let ghost old_open = open@;
        proof {
            assert forall|a: int| 0 <= a < old_open.len() implies balance(
                s,
                old_open[a] as int,
                i + 1,
            ) == balance(s, old_open[a] as int, i as int) + depth_step(c) by {}
        }
        if c == '[' {
            let is_map = i + 1 < n && input[i + 1] == '#';
            open.push(i);
            if is_map {
                out.push('{');
            } else {
                out.push('[');
            }
            proof {
                assert(balance(s, i as int, i as int) == 0);
                assert(balance(s, i as int, i + 1) == 1);
                assert forall|p: int| 0 <= p < i + 1 && s[p] == '[' implies (exists|a: int|
                    0 <= a < open@.len() && open@[a] == p) || (exists|q: int|
                    q < i + 1 && #[trigger] closes(s, p, q)) by {
                    if p == i {
                        assert(open@[old_open.len() as int] == p);
                    } else if exists|a: int| 0 <= a < old_open.len() && old_open[a] == p {
                        let a = choose|a: int| 0 <= a < old_open.len() && old_open[a] == p;
                        assert(open@[a] == p);
                    }
                }
                assert(!closes_map(s, i as int));
            }
        } else if c == ']' {
            if open.len() > 0 {
                let t = open.pop().unwrap();
                let closes_list = input[t + 1] == '#';
                proof {
                    assert(closes(s, t as int, i as int));
                    assert(opens_map(s, t as int) ==> closes_map(s, i as int));
                    if closes_map(s, i as int) {
                        let p = choose|p: int| opens_map(s, p) && #[trigger] closes(s, p, i as int);
                        if exists|q: int| q < i && #[trigger] closes(s, p, q) {
                            let q = choose|q: int| q < i && #[trigger] closes(s, p, q);
                            assert(balance(s, p, q + 1) == 0);
                        }
                        let a = choose|a: int| 0 <= a < old_open.len() && old_open[a] == p;
                        if a < old_open.len() - 1 {
                            assert(balance(s, p, i + 1) != 0);
                        }
                        assert(p == t);
                    }
                }
                if closes_list {
                    out.push('}');
                } else {
                    out.push(']');
                }
                proof {
                    assert forall|p: int| 0 <= p < i + 1 && s[p] == '[' implies (exists|a: int|
                        0 <= a < open@.len() && open@[a] == p) || (exists|q: int|
                        q < i + 1 && #[trigger] closes(s, p, q)) by {
                        if p == t {
                            assert(closes(s, p, i as int));
                        } else if exists|a: int| 0 <= a < old_open.len() && old_open[a] == p {
                            let a = choose|a: int| 0 <= a < old_open.len() && old_open[a] == p;
                            if a == old_open.len() - 1 {
                                assert(p == t);
                            }
                            assert(open@[a] == p);
                        }
                    }
                }
            } else {
                out.push(']');
                proof {
                    if closes_map(s, i as int) {
                        let p = choose|p: int| opens_map(s, p) && #[trigger] closes(s, p, i as int);
                        if exists|q: int| q < i && #[trigger] closes(s, p, q) {
                            let q = choose|q: int| q < i && #[trigger] closes(s, p, q);
                            assert(balance(s, p, q + 1) == 0);
                        }
                    }
                }
            }
        } else {
            out.push(c);
            proof {
                assert(!closes_map(s, i as int));
            }
        }
        i = i + 1;
    }
    let mut a: usize = 0;
    while a < open.len()
        invariant
            s == input@,
            n == s.len(),
            forall|k: int| 0 <= k < n ==> out@[k] == reclassified_char(s, k),
            out@.len() == n,
            forall|b: int| 0 <= b < open@.len() ==> open@[b] < n && s[open@[b] as int] == '[',
            forall|b: int, j: int|
                0 <= b < open@.len() && open@[b] < j <= n ==> #[trigger] balance(
                    s,
                    open@[b] as int,
                    j,
                ) != 0,
            forall|p: int|
                0 <= p < n && s[p] == '[' ==> (exists|b: int|
                    0 <= b < open@.len() && open@[b] == p) || (exists|q: int|
                    q < n && #[trigger] closes(s, p, q)),
            forall|b: int| 0 <= b < a ==> !opens_map(s, open@[b] as int),
            a <= open@.len(),
        decreases open@.len() - a,
    {
        let p = open[a];
        if p + 1 < n && input[p + 1] == '#' {
            proof {
                assert(opens_map(s, p as int));
                if exists|q: int| #[trigger] closes(s, p as int, q) {
                    let q = choose|q: int| #[trigger] closes(s, p as int, q);
                    assert(balance(s, p as int, q + 1) == 0);
                }
            }
            return Err(LoadError::Format);
        }
        a = a + 1;
    }
    proof {
        assert(out@ == reclassified(s));
        assert forall|p: int| opens_map(s, p) implies exists|q: int| #[trigger] closes(s, p, q) by {
            if exists|b: int| 0 <= b < open@.len() && open@[b] == p {
                let b = choose|b: int| 0 <= b < open@.len() && open@[b] == p;
                assert(!opens_map(s, open@[b] as int));
            }
        }
    }
    Ok(out)
}

/// A key: the sigil `#` and the word after it.
pub const KEY_PATTERN: &'static str = r"(#\w+)";

/// A `color`, `point` or `rect` literal with its integer arguments.
pub const LITERAL_PATTERN: &'static str = r"((color|point|rect)\([0-9, \-]+\))";

/// The whole match, in double quotes.
pub const QUOTED_MATCH: &'static str = "\"$1\"";

/// The error of the regex crate when it refuses a pattern.
#[verifier::external_type_specification]
#[verifier::external_body]
pub struct ExRegexError(regex::Error);

/// Whether the regex crate accepts `pattern`.
pub uninterp spec fn regex_compiles(pattern: Seq<char>) -> bool;

/// `text` with every match of `pattern` replaced by `replacement`, as the
/// regex crate does it.
pub uninterp spec fn regex_replaced(
    pattern: Seq<char>,
    text: Seq<char>,
    replacement: Seq<char>,
) -> Seq<char>;

/// Relies on regex::Regex::new, which accepts or refuses a pattern by its text
/// alone, and on regex::Regex::replace_all, which replaces every
/// non-overlapping match in `text` by `replacement`, its group references
/// expanded, and keeps the text between matches.
#[verifier::external_body]
fn replace_all(pattern: &str, text: &str, replacement: &str) -> (r: Result<String, regex::Error>)
    ensures
        r is Ok <==> regex_compiles(pattern@),
        r matches Ok(out) ==> out@ == regex_replaced(pattern@, text@, replacement@),
{
    let re = regex::Regex::new(pattern)?;
    Ok(re.replace_all(text, replacement).into_owned())
}

/// Quotes the keys in the input.
fn rename_keys(input: &str) -> (r: Result<String, LoadError>)
    ensures
        r is Ok <==> regex_compiles(KEY_PATTERN@),
        r matches Ok(out) ==> out@ == regex_replaced(KEY_PATTERN@, input@, QUOTED_MATCH@),
        r matches Err(e) ==> e == LoadError::Format,
{
    match replace_all(KEY_PATTERN, input, QUOTED_MATCH) {
        Ok(out) => Ok(out),
        Err(_) => Err(LoadError::Format),
    }
}

/// Quotes the `color`, `point` and `rect` literals in the input.
fn fix_color_point(input: &str) -> (r: Result<String, LoadError>)
    ensures
        r is Ok <==> regex_compiles(LITERAL_PATTERN@),
        r matches Ok(out) ==> out@ == regex_replaced(LITERAL_PATTERN@, input@, QUOTED_MATCH@),
        r matches Err(e) ==> e == LoadError::Format,
{
    match replace_all(LITERAL_PATTERN, input, QUOTED_MATCH) {
        Ok(out) => Ok(out),
        Err(_) => Err(LoadError::Format),
    }
}

/// `s` with its first character made `{` and its last made `}`.
pub open spec fn braced(s: Seq<char>) -> Seq<char>
    recommends
        s.len() > 0,
{
    s.update(0, '{').update(s.len() - 1, '}')
}

/// Replaces the outermost brackets of a record, its first and last
/// characters, by braces. An empty record is a format error.
pub fn wrap_in_braces(input: &str) -> (r: Result<String, LoadError>)
    ensures
        r is Ok <==> input@.len() > 0,
        r matches Ok(out) ==> out@ == braced(input@),
        r matches Err(e) ==> e == LoadError::Format,
{
    let mut chars = chars_of(input);
    let n = chars.len();
    if n == 0 {
        return Err(LoadError::Format);
    }
    chars.set(0, '{');
    chars.set(n - 1, '}');
    Ok(string_of(chars.as_slice()))
}

/// Whether `c` occurs in `s`.
fn has_char(s: &[char], c: char) -> (r: bool)
    ensures
        r == s@.contains(c),
{
    let mut i: usize = 0;
    while i < s.len()
        invariant
            i <= s@.len(),
            forall|j: int| 0 <= j < i ==> s@[j] != c,
        decreases s@.len() - i,
    {
        if s[i] == c {
            return true;
        }
        i = i + 1;
    }
    false
}

/// The JSON text that a record of the level format is rewritten to, or `None`
/// where the rewriting fails.
///
/// A record without the key sigil is kept as it is. Otherwise the brackets of
/// property lists become braces, keys and literals are quoted, and the
/// record's own outer brackets become braces.
pub open spec fn record_json(s: Seq<char>) -> Option<Seq<char>> {
    if !s.contains('#') {
        Some(s)
    } else if !maps_balanced(s) || !regex_compiles(KEY_PATTERN@) || !regex_compiles(
        LITERAL_PATTERN@,
    ) {
        None
    } else {
        let keyed = regex_replaced(KEY_PATTERN@, reclassified(s), QUOTED_MATCH@);
        let quoted = regex_replaced(LITERAL_PATTERN@, keyed, QUOTED_MATCH@);
        if quoted.len() == 0 {
            None
        } else {
            Some(braced(quoted))
        }
    }
}

/// Rewrites one record of the level format into JSON text.
pub fn convert_to_json(input: &str) -> (r: Result<String, LoadError>)
    ensures
        r is Ok <==> record_json(input@) is Some,
        r matches Ok(out) ==> record_json(input@) == Some(out@),
        r matches Err(e) ==> e == LoadError::Format,
        !input@.contains('#') ==> (r matches Ok(out) && out@ == input@),
{
    let chars = chars_of(input);
    if !has_char(chars.as_slice(), '#') {
        return Ok(input.to_owned());
    }
    let objects = match jsonify_lingo_objects(chars.as_slice()) {
        Ok(o) => o,
        Err(e) => return Err(e),
    };
    let text = string_of(objects.as_slice());
    let keyed = match rename_keys(text.as_str()) {
        Ok(t) => t,
        Err(e) => return Err(e),
    };
    let quoted = match fix_color_point(keyed.as_str()) {
        Ok(t) => t,
        Err(e) => return Err(e),
    };
    wrap_in_braces(quoted.as_str())
}

/// The pieces of `s` between occurrences of `sep`, in order; `n` separators
/// give `n + 1` pieces, some of them maybe empty.
pub open spec fn split_on(s: Seq<char>, sep: char) -> Seq<Seq<char>>
    decreases s.len(),
{
    if s.len() == 0 {
        seq![Seq::<char>::empty()]
    } else {
        let prev = split_on(s.drop_last(), sep);
        if s.last() == sep {
            prev.push(Seq::<char>::empty())
        } else {
            prev.update(prev.len() - 1, prev.last().push(s.last()))
        }
    }
}

/// There is always at least one piece.
proof fn lemma_split_on_nonempty(s: Seq<char>, sep: char)
    ensures
        split_on(s, sep).len() >= 1,
    decreases s.len(),
{
    if s.len() > 0 {
        lemma_split_on_nonempty(s.drop_last(), sep);
    }
}

/// Splits `contents` into its records, the pieces between separators.
pub fn split_records(contents: &str, sep: char) -> (r: Vec<String>)
    ensures
        r@.map_values(|p: String| p@) == split_on(contents@, sep),
{
    let chars = chars_of(contents);
    let ghost s = chars@;
    let mut pieces: Vec<String> = Vec::new();
    let mut current: Vec<char> = Vec::new();
    let mut i: usize = 0;
    while i < chars.len()
        invariant
            s == chars@,
            i <= s.len(),
            pieces@.map_values(|p: String| p@).push(current@) == split_on(s.take(i as int), sep),
        decreases s.len() - i,
    {
        let c = chars[i];
        proof {
            assert(s.take(i + 1).drop_last() == s.take(i as int));
            lemma_split_on_nonempty(s.take(i as int), sep);
        }
        if c == sep {
            let piece = string_of(current.as_slice());
            pieces.push(piece);
            current = Vec::new();
            proof {
                assert(pieces@.map_values(|p: String| p@) == split_on(s.take(i as int), sep));
            }
        } else {
            let ghost before = pieces@.map_values(|p: String| p@).push(current@);
            current.push(c);
            proof {
                assert(pieces@.map_values(|p: String| p@).push(current@) == before.update(
                    before.len() - 1,
                    before.last().push(c),
                ));
            }
        }
        i = i + 1;
    }
    let last = string_of(current.as_slice());
    pieces.push(last);
    proof {
        assert(s.take(i as int) == s);
        assert(pieces@.map_values(|p: String| p@) == split_on(s, sep));
    }
    pieces
}

/// A document parsed by serde_json, carried through as it is.
#[verifier::external_type_specification]
#[verifier::external_body]
pub struct ExJsonValue(serde_json::Value);

/// The error of serde_json when it cannot read a document.
#[verifier::external_type_specification]
#[verifier::external_body]
pub struct ExJsonError(serde_json::Error);

/// Whether serde_json reads `text` as one JSON document.
pub uninterp spec fn json_accepts(text: Seq<char>) -> bool;

/// Relies on serde_json::from_str: it reads `text` as one JSON document into a
/// `Value`, and whether it succeeds depends on the text alone.
#[verifier::external_body]
fn parse_json(text: &str) -> (r: Result<serde_json::Value, serde_json::Error>)
    ensures
        r is Ok <==> json_accepts(text@),
{
    serde_json::from_str(text)
}

/// The nine records of a project file, each parsed as JSON, in file order.
#[derive(Debug)]
pub struct ProjectJson {
    pub geom: serde_json::Value,
    pub tiles: serde_json::Value,
    pub effects: serde_json::Value,
    pub lights: serde_json::Value,
    pub settings1: serde_json::Value,
    pub settings2: serde_json::Value,
    pub cams: serde_json::Value,
    pub water: serde_json::Value,
    pub props: serde_json::Value,
}

/// The number of records in a project file.
pub const RECORD_COUNT: usize = 9;

/// The record at `i` rewrites to JSON text that serde_json reads.
pub open spec fn record_loads(records: Seq<Seq<char>>, i: int) -> bool {
    record_json(records[i]) matches Some(t) && json_accepts(t)
}

/// Splits a project file on `newline`, rewrites each record into JSON and
/// parses it. The file loads only if it has exactly nine records and each of
/// them rewrites and parses.
pub fn convert_lines(contents: &str, newline: char) -> (r: Result<ProjectJson, LoadError>)
    ensures
        r is Ok <==> split_on(contents@, newline).len() == RECORD_COUNT && forall|i: int|
            0 <= i < RECORD_COUNT ==> #[trigger] record_loads(split_on(contents@, newline), i),
        split_on(contents@, newline).len() != RECORD_COUNT ==> r is Err,
        r matches Err(e) ==> e == LoadError::Format,
{
    let records = split_records(contents, newline);
    let ghost pieces = split_on(contents@, newline);
    proof {
        assert(records@.len() == pieces.len());
    }
    if records.len() != RECORD_COUNT {
        return Err(LoadError::Format);
    }
    let mut values: Vec<serde_json::Value> = Vec::new();
    let mut i: usize = 0;
    while i < RECORD_COUNT
        invariant
            records@.map_values(|p: String| p@) == pieces,
            pieces == split_on(contents@, newline),
            pieces.len() == RECORD_COUNT,
            i <= RECORD_COUNT,
            values@.len() == i,
            forall|k: int| 0 <= k < i ==> #[trigger] record_loads(pieces, k),
        decreases RECORD_COUNT - i,
    {
        assert(records@[i as int]@ == pieces[i as int]);
        let text = match convert_to_json(records[i].as_str()) {
            Ok(t) => t,
            Err(e) => {
                assert(!record_loads(pieces, i as int));
                return Err(e);
            },
        };
        let value = match parse_json(text.as_str()) {
            Ok(v) => v,
            Err(_) => {
                assert(!record_loads(pieces, i as int));
                return Err(LoadError::Format);
            },
        };
        values.push(value);
        i = i + 1;
    }
    let props = values.pop().unwrap();
    let water = values.pop().unwrap();
    let cams = values.pop().unwrap();
    let settings2 = values.pop().unwrap();
    let settings1 = values.pop().unwrap();
    let lights = values.pop().unwrap();
    let effects = values.pop().unwrap();
    let tiles = values.pop().unwrap();
    let geom = values.pop().unwrap();
    Ok(ProjectJson { geom, tiles, effects, lights, settings1, settings2, cams, water, props })
}

} // verus!
