use vstd::prelude::*;

use crate::lingo_to_json::{split_on, split_records};
use crate::text::chars_of;

verus! {

/// A `point(x, y)` literal.
#[derive(Copy, Clone, Debug, PartialEq, Eq, Structural)]
pub struct Point {
    pub fst: isize,
    pub snd: isize,
}

/// A `color(r, g, b)` literal.
#[derive(Copy, Clone, Debug, PartialEq, Eq, Structural)]
pub struct Color {
    pub red: u8,
    pub green: u8,
    pub blue: u8,
}

/// A `rect(top, left, bottom, right)` literal.
#[derive(Copy, Clone, Debug, PartialEq, Eq, Structural)]
pub struct Rect {
    pub top: isize,
    pub left: isize,
    pub bottom: isize,
    pub right: isize,
}

pub const POINT_PREFIX: &'static str = "point(";

pub const COLOR_PREFIX: &'static str = "color(";

pub const RECT_PREFIX: &'static str = "rect(";

/// The characters that Unicode gives the White_Space property.
pub open spec fn is_space(c: char) -> bool {
    let u = c as u32;
    (0x09 <= u <= 0x0D) || u == 0x20 || u == 0x85 || u == 0xA0 || u == 0x1680 || (0x2000 <= u
        <= 0x200A) || u == 0x2028 || u == 0x2029 || u == 0x202F || u == 0x205F || u == 0x3000
}

/// `s` without its leading white space.
pub open spec fn trim_start(s: Seq<char>) -> Seq<char>
    decreases s.len(),
{
    if s.len() > 0 && is_space(s[0]) {
        trim_start(s.drop_first())
    } else {
        s
    }
}

/// `s` without its trailing white space.
pub open spec fn trim_end(s: Seq<char>) -> Seq<char>
    decreases s.len(),
{
    if s.len() > 0 && is_space(s.last()) {
        trim_end(s.drop_last())
    } else {
        s
    }
}

/// `s` without its leading and trailing white space.
pub open spec fn trimmed(s: Seq<char>) -> Seq<char> {
    trim_end(trim_start(s))
}

pub open spec fn is_digit(c: char) -> bool {
    48 <= (c as u32) <= 57
}

/// `s` is a non-empty run of decimal digits.
pub open spec fn all_digits(s: Seq<char>) -> bool {
    s.len() > 0 && forall|i: int| 0 <= i < s.len() ==> is_digit(#[trigger] s[i])
}

/// The number that the decimal digits `s` write.
pub open spec fn digits_value(s: Seq<char>) -> nat
    decreases s.len(),
{
    if s.len() == 0 {
        0
    } else {
        (digits_value(s.drop_last()) * 10 + ((s.last() as u32) - 48)) as nat
    }
}

/// The integer that `u` writes: digits with an optional `+`, or, where
/// `signed`, an optional `-`; no other character, not even white space.
pub open spec fn int_literal(u: Seq<char>, signed: bool) -> Option<int> {
    if u.len() > 0 && u[0] == '+' {
        if all_digits(u.drop_first()) {
            Some(digits_value(u.drop_first()) as int)
        } else {
            None
        }
    } else if u.len() > 0 && u[0] == '-' {
        if signed && all_digits(u.drop_first()) {
            Some(-digits_value(u.drop_first()))
        } else {
            None
        }
    } else if all_digits(u) {
        Some(digits_value(u) as int)
    } else {
        None
    }
}

/// One argument of a literal: an integer in `lo..=hi` with optional white
/// space around it.
pub open spec fn component(p: Seq<char>, signed: bool, lo: int, hi: int) -> Option<int> {
    match int_literal(trimmed(p), signed) {
        Some(v) => if lo <= v <= hi {
            Some(v)
        } else {
            None
        },
        None => None,
    }
}

/// The `n` integer arguments of the literal `s`, written as `prefix`, then
/// the arguments separated by commas, then `)`.
pub open spec fn literal_values(
    s: Seq<char>,
    prefix: Seq<char>,
    n: nat,
    signed: bool,
    lo: int,
    hi: int,
) -> Option<Seq<int>> {
    if s.len() >= prefix.len() + 1 && s.take(prefix.len() as int) == prefix && s.last() == ')' {
        let parts = split_on(s.subrange(prefix.len() as int, s.len() - 1), ',');
        if parts.len() == n && forall|i: int|
            0 <= i < n ==> #[trigger] component(parts[i], signed, lo, hi) is Some {
            Some(Seq::new(n, |i: int| component(parts[i], signed, lo, hi)->0))
        } else {
            None
        }
    } else {
        None
    }
}

/// The point that `s` writes.
pub open spec fn point_of(s: Seq<char>) -> Option<Point> {
    match literal_values(s, POINT_PREFIX@, 2, true, isize::MIN as int, isize::MAX as int) {
        Some(v) => Some(Point { fst: v[0] as isize, snd: v[1] as isize }),
        None => None,
    }
}

/// The color that `s` writes.
pub open spec fn color_of(s: Seq<char>) -> Option<Color> {
    match literal_values(s, COLOR_PREFIX@, 3, false, 0, 255) {
        Some(v) => Some(Color { red: v[0] as u8, green: v[1] as u8, blue: v[2] as u8 }),
        None => None,
    }
}

/// The rectangle that `s` writes.
pub open spec fn rect_of(s: Seq<char>) -> Option<Rect> {
    match literal_values(s, RECT_PREFIX@, 4, true, isize::MIN as int, isize::MAX as int) {
        Some(v) => Some(
            Rect {
                top: v[0] as isize,
                left: v[1] as isize,
                bottom: v[2] as isize,
                right: v[3] as isize,
            },
        ),
        None => None,
    }
}

fn is_space_char(c: char) -> (r: bool)
    ensures
        r == is_space(c),
{
    let u = c as u32;
    (0x09 <= u && u <= 0x0D) || u == 0x20 || u == 0x85 || u == 0xA0 || u == 0x1680 || (0x2000
        <= u && u <= 0x200A) || u == 0x2028 || u == 0x2029 || u == 0x202F || u == 0x205F || u
        == 0x3000
}

/// The bounds of `s` without its leading and trailing white space.
fn trim_bounds(s: &[char]) -> (r: (usize, usize))
    ensures
        r.0 <= r.1 <= s@.len(),
        s@.subrange(r.0 as int, r.1 as int) == trimmed(s@),
{
    let n = s.len();
    let mut a: usize = 0;
    assert(s@.subrange(0, n as int) == s@);
    while a < n && is_space_char(s[a])
        invariant
            a <= n == s@.len(),
            trim_start(s@) == trim_start(s@.subrange(a as int, n as int)),
        decreases n - a,
    {
        proof {
            assert(s@.subrange(a as int, n as int).drop_first() == s@.subrange(
                a + 1,
                n as int,
            ));
        }
        a = a + 1;
    }
    let mut b: usize = n;
    while b > a && is_space_char(s[b - 1])
        invariant
            a <= b <= n == s@.len(),
            trim_start(s@) == s@.subrange(a as int, n as int),
            trimmed(s@) == trim_end(s@.subrange(a as int, b as int)),
        decreases b - a,
    {
        proof {
            assert(s@.subrange(a as int, b as int).drop_last() == s@.subrange(
                a as int,
                b - 1,
            ));
        }
        b = b - 1;
    }
    (a, b)
}

/// A longer run of digits never writes a smaller number.
proof fn lemma_digits_prefix(s: Seq<char>, k: int)
    requires
        0 <= k <= s.len(),
        forall|i: int| 0 <= i < s.len() ==> is_digit(#[trigger] s[i]),
    ensures
        digits_value(s.take(k)) <= digits_value(s),
    decreases s.len(),
{
    if k < s.len() {
        assert(s.drop_last().take(k) == s.take(k));
        lemma_digits_prefix(s.drop_last(), k);
    } else {
        assert(s.take(k) == s);
    }
}

/// The number that the digits `u` write, where it fits in a `u64`.
fn digits_of(u: &[char]) -> (r: Option<u64>)
    ensures
        r == (if all_digits(u@) && digits_value(u@) <= u64::MAX {
            Some(digits_value(u@) as u64)
        } else {
            None
        }),
{
    if u.len() == 0 {
        return None;
    }
    let mut acc: u64 = 0;
    let mut i: usize = 0;
    while i < u.len()
        invariant
            i <= u@.len(),
            forall|j: int| 0 <= j < i ==> is_digit(#[trigger] u@[j]),
            acc == digits_value(u@.take(i as int)),
        decreases u@.len() - i,
    {
        let d = u[i] as u32;
        proof {
            assert(u@.take(i + 1).drop_last() == u@.take(i as int));
        }
        if d < 48 || d > 57 {
            return None;
        }
        let next = match acc.checked_mul(10) {
            Some(m) => m.checked_add((d - 48) as u64),
            None => None,
        };
        match next {
            Some(v) => {
                acc = v;
            },
            None => {
                proof {
                    if all_digits(u@) {
                        lemma_digits_prefix(u@, i + 1);
                    }
                }
                return None;
            },
        }
        i = i + 1;
    }
    proof {
        assert(u@.take(i as int) == u@);
    }
    Some(acc)
}

/// One argument of a literal, as [`component`] reads it.
fn parse_component(p: &[char], signed: bool, lo: i128, hi: i128) -> (r: Option<i128>)
    requires
        -(u64::MAX as int) <= lo,
        hi <= u64::MAX,
    ensures
        r == (match component(p@, signed, lo as int, hi as int) {
            Some(v) => Some(v as i128),
            None => None,
        }),
{
    let (a, b) = trim_bounds(p);
    let u = &p[a..b];
    let ghost t = trimmed(p@);
    assert(u@ == t);
    let n = u.len();
    let (negative, digits) = if n > 0 && u[0] == '+' {
        (false, &u[1..n])
    } else if n > 0 && u[0] == '-' && signed {
        (true, &u[1..n])
    } else {
        (false, u)
    };
    proof {
        if n > 0 && (u[0] == '+' || (u[0] == '-' && signed)) {
            assert(digits@ == t.drop_first());
        }
    }
    match digits_of(digits) {
        Some(m) => {
            let v: i128 = if negative {
                -(m as i128)
            } else {
                m as i128
            };
            if lo <= v && v <= hi {
                Some(v)
            } else {
                None
            }
        },
        None => None,
    }
}

/// The arguments of the literal `s` written as `prefix`, the arguments
/// separated by commas, and `)`: `None` unless there are exactly
/// `expected_len` of them and each is an integer in `lo..=hi`.
#[verifier::loop_isolation(false)]
fn collect(prefix: &str, s: &str, expected_len: usize, signed: bool, lo: i128, hi: i128) -> (r:
    Option<Vec<i128>>)
    requires
        -(u64::MAX as int) <= lo,
        hi <= u64::MAX,
    ensures
        r is Some <==> literal_values(s@, prefix@, expected_len as nat, signed, lo as int, hi as int) is Some,
        r matches Some(vals) ==> vals@.len() == expected_len && forall|i: int|
            0 <= i < expected_len ==> vals@[i] == literal_values(
                s@,
                prefix@,
                expected_len as nat,
                signed,
                lo as int,
                hi as int,
            )->0[i],
{
    let ghost spec_r = literal_values(s@, prefix@, expected_len as nat, signed, lo as int, hi as int);
    let pre = chars_of(prefix);
    let cs = chars_of(s);
    let pn = pre.len();
    let n = cs.len();
    if n <= pn || cs[n - 1] != ')' {
        return None;
    }
    let mut k: usize = 0;
    while k < pn
        invariant
            pn == pre@.len() == prefix@.len(),
            n == cs@.len() == s@.len(),
            pre@ == prefix@,
            cs@ == s@,
            n >= pn + 1,
            k <= pn,
            forall|j: int| 0 <= j < k ==> cs@[j] == pre@[j],
        decreases pn - k,
    {
        if cs[k] != pre[k] {
            proof {
                assert(s@.take(pn as int)[k as int] != prefix@[k as int]);
            }
            return None;
        }
        k = k + 1;
    }
    proof {
        assert(s@.take(pn as int) == prefix@);
    }
    let body = crate::text::string_of(&cs.as_slice()[pn..n - 1]);
    let parts = split_records(body.as_str(), ',');
    let ghost sparts = split_on(s@.subrange(pn as int, n - 1), ',');
    proof {
        assert(body@ == s@.subrange(pn as int, n - 1));
        assert(parts@.len() == sparts.len());
    }
    if parts.len() != expected_len {
        return None;
    }
    let mut vals: Vec<i128> = Vec::new();
    let mut i: usize = 0;
    while i < expected_len
        invariant
            parts@.map_values(|p: String| p@) == sparts,
            sparts.len() == expected_len,
            -(u64::MAX as int) <= lo,
            hi <= u64::MAX,
            i <= expected_len,
            vals@.len() == i,
            forall|j: int|
                0 <= j < i ==> (#[trigger] component(sparts[j], signed, lo as int, hi as int))
                    == Some(vals@[j] as int),
        decreases expected_len - i,
    {
        assert(parts@[i as int]@ == sparts[i as int]);
        let pc = chars_of(parts[i].as_str());
        match parse_component(pc.as_slice(), signed, lo, hi) {
            Some(v) => {
                vals.push(v);
            },
            None => {
                assert(component(sparts[i as int], signed, lo as int, hi as int) is None);
                return None;
            },
        }
        i = i + 1;
    }
    proof {
        assert(spec_r is Some);
    }
    Some(vals)
}

impl Point {
    /// Reads a `point(x, y)` literal; `None` unless it has exactly two integer
    /// arguments that fit in an `isize`.
    pub fn parse(s: &str) -> (r: Option<Point>)
        ensures
            r == point_of(s@),
    {
        match collect(POINT_PREFIX, s, 2, true, isize::MIN as i128, isize::MAX as i128) {
            Some(vals) => Some(Point { fst: vals[0] as isize, snd: vals[1] as isize }),
            None => None,
        }
    }
}

impl Color {
    /// Reads a `color(r, g, b)` literal; `None` unless it has exactly three
    /// arguments in `0..=255`.
    pub fn parse(s: &str) -> (r: Option<Color>)
        ensures
            r == color_of(s@),
    {
        match collect(COLOR_PREFIX, s, 3, false, 0, 255) {
            Some(vals) => Some(
                Color { red: vals[0] as u8, green: vals[1] as u8, blue: vals[2] as u8 },
            ),
            None => None,
        }
    }
}

impl Rect {
    /// Reads a `rect(top, left, bottom, right)` literal; `None` unless it has
    /// exactly four integer arguments that fit in an `isize`.
    pub fn parse(s: &str) -> (r: Option<Rect>)
        ensures
            r == rect_of(s@),
    {
        match collect(RECT_PREFIX, s, 4, true, isize::MIN as i128, isize::MAX as i128) {
            Some(vals) => Some(
                Rect {
                    top: vals[0] as isize,
                    left: vals[1] as isize,
                    bottom: vals[2] as isize,
                    right: vals[3] as isize,
                },
            ),
            None => None,
        }
    }
}

} // verus!
