//! Small verified helpers that build text: decimal rendering of integers
//! and concatenation of string pieces.

use vstd::prelude::*;
use vstd::string::*;

verus! {

/// The character of a decimal digit.
pub open spec fn digit_char(d: nat) -> char {
    if d == 0 { '0' }
    else if d == 1 { '1' }
    else if d == 2 { '2' }
    else if d == 3 { '3' }
    else if d == 4 { '4' }
    else if d == 5 { '5' }
    else if d == 6 { '6' }
    else if d == 7 { '7' }
    else if d == 8 { '8' }
    else { '9' }
}

/// Decimal representation of a natural number, most significant digit first.
pub open spec fn decimal(n: nat) -> Seq<char>
    decreases n,
{
    if n < 10 {
        seq![digit_char(n)]
    } else {
        decimal(n / 10).push(digit_char(n % 10))
    }
}

/// Decimal representation of a signed integer, with a leading '-' when negative.
pub open spec fn signed_decimal(n: int) -> Seq<char> {
    if n < 0 {
        seq!['-'] + decimal((-n) as nat)
    } else {
        decimal(n as nat)
    }
}

fn digit_str(d: u64) -> (s: &'static str)
    requires
        d < 10,
    ensures
        s@ == seq![digit_char(d as nat)],
{
    proof {
        reveal_strlit("0");
        reveal_strlit("1");
        reveal_strlit("2");
        reveal_strlit("3");
        reveal_strlit("4");
        reveal_strlit("5");
        reveal_strlit("6");
        reveal_strlit("7");
        reveal_strlit("8");
        reveal_strlit("9");
    }
    if d == 0 { "0" }
    else if d == 1 { "1" }
    else if d == 2 { "2" }
    else if d == 3 { "3" }
    else if d == 4 { "4" }
    else if d == 5 { "5" }
    else if d == 6 { "6" }
    else if d == 7 { "7" }
    else if d == 8 { "8" }
    else { "9" }
}

/// The character of a hexadecimal digit, in lower case.
pub open spec fn hex_digit_char(d: nat) -> char {
    if d < 10 { digit_char(d) }
    else if d == 10 { 'a' }
    else if d == 11 { 'b' }
    else if d == 12 { 'c' }
    else if d == 13 { 'd' }
    else if d == 14 { 'e' }
    else { 'f' }
}

/// Lower-case hexadecimal representation of a natural number, most significant
/// digit first, without leading zeros.
pub open spec fn lower_hex(n: nat) -> Seq<char>
    decreases n,
{
    if n < 16 {
        seq![hex_digit_char(n)]
    } else {
        lower_hex(n / 16).push(hex_digit_char(n % 16))
    }
}

fn hex_digit_str(d: u64) -> (s: &'static str)
    requires
        d < 16,
    ensures
        s@ == seq![hex_digit_char(d as nat)],
{
    if d < 10 {
        return digit_str(d);
    }
    proof {
        reveal_strlit("a");
        reveal_strlit("b");
        reveal_strlit("c");
        reveal_strlit("d");
        reveal_strlit("e");
        reveal_strlit("f");
    }
    if d == 10 { "a" }
    else if d == 11 { "b" }
    else if d == 12 { "c" }
    else if d == 13 { "d" }
    else if d == 14 { "e" }
    else { "f" }
}

/// Renders a `u64` in lower-case hexadecimal, as `format!("{:x}", n)` does.
pub fn u64_to_lower_hex(n: u64) -> (s: String)
    ensures
        s@ == lower_hex(n as nat),
    decreases n,
{
    if n < 16 {
        String::from_str(hex_digit_str(n))
    } else {
        let prefix = u64_to_lower_hex(n / 16);
        prefix.concat(hex_digit_str(n % 16))
    }
}

/// Renders a `u64` in decimal.
pub fn u64_to_text(n: u64) -> (s: String)
    ensures
        s@ == decimal(n as nat),
    decreases n,
{
    if n < 10 {
        String::from_str(digit_str(n))
    } else {
        let prefix = u64_to_text(n / 10);
        prefix.concat(digit_str(n % 10))
    }
}

/// Renders a `usize` in decimal.
pub fn usize_to_text(n: usize) -> (s: String)
    ensures
        s@ == decimal(n as nat),
{
    u64_to_text(n as u64)
}

/// Renders an `i64` in decimal, with a leading '-' when negative.
pub fn i64_to_text(n: i64) -> (s: String)
    ensures
        s@ == signed_decimal(n as int),
{
    proof {
        reveal_strlit("-");
    }
    if n < 0 {
        let magnitude: u64 = if n == i64::MIN {
            9223372036854775808u64
        } else {
            (-n) as u64
        };
        String::from_str("-").concat(u64_to_text(magnitude).as_str())
    } else {
        u64_to_text(n as u64)
    }
}

/// Joins text pieces with a separator between consecutive pieces.
pub open spec fn joined(pieces: Seq<Seq<char>>, sep: Seq<char>) -> Seq<char>
    decreases pieces.len(),
{
    if pieces.len() == 0 {
        Seq::empty()
    } else if pieces.len() == 1 {
        pieces[0]
    } else {
        joined(pieces.drop_last(), sep) + sep + pieces.last()
    }
}

/// The views of a vector of strings.
pub open spec fn views(v: Seq<String>) -> Seq<Seq<char>> {
    v.map_values(|s: String| s@)
}

/// Joins strings with a separator, as `join` on a slice of strings does.
pub fn join_strings(list: &Vec<String>, sep: &str) -> (res: String)
    ensures
        res@ == joined(views(list@), sep@),
{
    let mut res = String::new();
    let ghost all = views(list@);
    let mut i: usize = 0;
    while i < list.len()
        invariant
            0 <= i <= list.len(),
            all == views(list@),
            res@ == joined(all.take(i as int), sep@),
        decreases list.len() - i,
    {
        proof {
            assert(all.take(i + 1).drop_last() =~= all.take(i as int));
        }
        if i == 0 {
            res = String::from_str(list[i].as_str());
            assert(all.take(1) =~= seq![list@[0]@]);
        } else {
            res = res.concat(sep);
            res = res.concat(list[i].as_str());
        }
        i = i + 1;
    }
    assert(all.take(list.len() as int) =~= all);
    res
}

/// Whether `needle` occurs as a contiguous piece of `hay`.
pub open spec fn contains_piece(hay: Seq<char>, needle: Seq<char>) -> bool {
    exists|i: int| 0 <= i && i + needle.len() <= hay.len() && #[trigger] hay.subrange(i, i + needle.len()) == needle
}

/// Whether the text consists only of whitespace characters.
pub open spec fn all_whitespace(s: Seq<char>) -> bool {
    forall|i: int| 0 <= i < s.len() ==> is_whitespace(#[trigger] s[i])
}

/// The characters that `str::trim` removes (Unicode `White_Space`).
pub open spec fn is_whitespace(c: char) -> bool {
    ||| c == ' '
    ||| c == '\t'
    ||| c == '\n'
    ||| c == '\u{0B}'
    ||| c == '\u{0C}'
    ||| c == '\r'
    ||| c == '\u{85}'
    ||| c == '\u{A0}'
    ||| c == '\u{1680}'
    ||| ('\u{2000}' <= c && c <= '\u{200A}')
    ||| c == '\u{2028}'
    ||| c == '\u{2029}'
    ||| c == '\u{202F}'
    ||| c == '\u{205F}'
    ||| c == '\u{3000}'
}

/// Decides whether a character is whitespace in the sense of `char::is_whitespace`.
pub fn char_is_whitespace(c: char) -> (b: bool)
    ensures
        b == is_whitespace(c),
{
    c == ' ' || c == '\t' || c == '\n' || c == '\u{0B}' || c == '\u{0C}' || c == '\r'
        || c == '\u{85}' || c == '\u{A0}' || c == '\u{1680}' || ('\u{2000}' <= c && c <= '\u{200A}')
        || c == '\u{2028}' || c == '\u{2029}' || c == '\u{202F}' || c == '\u{205F}' || c == '\u{3000}'
}

/// Whether `s.trim().is_empty()` holds: every character is whitespace.
pub fn is_blank(s: &str) -> (b: bool)
    ensures
        b == all_whitespace(s@),
{
    let n = s.unicode_len();
    let mut i: usize = 0;
    while i < n
        invariant
            n == s@.len(),
            0 <= i <= n,
            forall|j: int| 0 <= j < i ==> is_whitespace(#[trigger] s@[j]),
        decreases n - i,
    {
        let c = s.get_char(i);
        if !char_is_whitespace(c) {
            return false;
        }
        i = i + 1;
    }
    true
}

/// Whether the character occurs in the text.
pub fn has_char(s: &str, c: char) -> (b: bool)
    ensures
        b == s@.contains(c),
{
    let n = s.unicode_len();
    let mut i: usize = 0;
    while i < n
        invariant
            n == s@.len(),
            0 <= i <= n,
            forall|j: int| 0 <= j < i ==> s@[j] != c,
        decreases n - i,
    {
        if s.get_char(i) == c {
            assert(s@[i as int] == c);
            return true;
        }
        i = i + 1;
    }
    false
}

/// Whether two string slices hold the same characters.
pub(crate) fn str_eq(a: &str, b: &str) -> (r: bool)
    ensures
        r == (a@ == b@),
{
    let x: String = a.to_owned();
    let y: String = b.to_owned();
    x == y
}

/// Name for the `Debug` rendering of a string: the text in double quotes, with the
/// characters that `str::escape_debug` escapes written as escapes.
pub uninterp spec fn debug_quoted(s: Seq<char>) -> Seq<char>;

/// `format!("{:?}", s)`: the `Debug` rendering of a string, as `<str as Debug>::fmt`
/// writes it. The text is named; it depends on the string alone.
#[verifier::external_body]
pub(crate) fn str_debug(s: &str) -> (r: String)
    ensures
        r@ == debug_quoted(s@),
{
    format!("{:?}", s)
}

/// `Debug` renderings of strings, in order.
pub open spec fn quoted_all(v: Seq<String>) -> Seq<Seq<char>> {
    v.map_values(|s: String| debug_quoted(s@))
}

/// The `Debug` rendering of each string, in order.
pub fn debug_all(list: &Vec<String>) -> (r: Vec<String>)
    ensures
        views(r@) == quoted_all(list@),
{
    let mut r: Vec<String> = Vec::new();
    let mut i: usize = 0;
    while i < list.len()
        invariant
            0 <= i <= list@.len(),
            views(r@) =~= quoted_all(list@.take(i as int)),
        decreases list.len() - i,
    {
        let q = str_debug(list[i].as_str());
        let ghost r0 = r@;
        r.push(q);
        proof {
            assert(list@.take(i as int + 1) =~= list@.take(i as int).push(list@[i as int]));
            assert(views(r@) =~= views(r0).push(q@));
            assert(quoted_all(list@.take(i as int + 1)) =~= quoted_all(list@.take(i as int)).push(
                debug_quoted(list@[i as int]@),
            ));
        }
        i = i + 1;
    }
    proof {
        assert(list@.take(list@.len() as int) =~= list@);
    }
    r
}

/// Copies a string slice into a new `String`.
pub fn to_owned_string(s: &str) -> (r: String)
    ensures
        r@ == s@,
{
    String::from_str(s)
}


/// Whether `p` occurs in `t` at position `i`.
pub open spec fn occurs_at(t: Seq<char>, p: Seq<char>, i: int) -> bool {
    0 <= i && i + p.len() <= t.len() && t.subrange(i, i + p.len()) == p
}

/// The first position, at or after `i`, at which `p` occurs in `t`.
pub open spec fn find_from(t: Seq<char>, p: Seq<char>, i: int) -> Option<int>
    decreases t.len() + 1 - i,
{
    if i < 0 || i > t.len() || i + p.len() > t.len() {
        None
    } else if occurs_at(t, p, i) {
        Some(i)
    } else {
        find_from(t, p, i + 1)
    }
}

/// `t` with every occurrence of the non-empty `p` replaced by `v`, matched from the
/// left without overlap, as `str::replace` does.
pub open spec fn replaced(t: Seq<char>, p: Seq<char>, v: Seq<char>) -> Seq<char>
    decreases t.len(),
{
    if p.len() == 0 || t.len() < p.len() {
        t
    } else if t.take(p.len() as int) == p {
        v + replaced(t.skip(p.len() as int), p, v)
    } else {
        seq![t[0]] + replaced(t.skip(1), p, v)
    }
}

/// Whether `p` occurs in `t` at position `i`.
fn text_occurs_at(t: &str, n: usize, p: &str, m: usize, i: usize) -> (b: bool)
    requires
        n == t@.len(),
        m == p@.len(),
        i <= n,
    ensures
        b == occurs_at(t@, p@, i as int),
{
    if m > n - i {
        return false;
    }
    let mut k: usize = 0;
    while k < m
        invariant
            n == t@.len(),
            m == p@.len(),
            i + m <= n,
            0 <= k <= m,
            forall|j: int| 0 <= j < k ==> t@[i + j] == p@[j],
        decreases m - k,
    {
        if t.get_char(i + k) != p.get_char(k) {
            proof {
                assert(t@.subrange(i as int, i + m)[k as int] != p@[k as int]);
            }
            return false;
        }
        k = k + 1;
    }
    proof {
        assert(t@.subrange(i as int, i + m) =~= p@);
    }
    true
}

/// The first position, at or after `from`, at which `p` occurs in `t`.
pub fn find_text(t: &str, p: &str, from: usize) -> (r: Option<usize>)
    requires
        from <= t@.len(),
    ensures
        match r {
            Some(i) => find_from(t@, p@, from as int) == Some(i as int),
            None => find_from(t@, p@, from as int) is None,
        },
{
    let n = t.unicode_len();
    let m = p.unicode_len();
    let mut i: usize = from;
    while i <= n && m <= n - i
        invariant
            n == t@.len(),
            m == p@.len(),
            from <= i,
            i <= n + 1,
            find_from(t@, p@, from as int) == find_from(t@, p@, i as int),
        decreases n + 1 - i,
    {
        if m == 0 {
            assert(t@.subrange(i as int, i as int) =~= p@);
        }
        if text_occurs_at(t, n, p, m, i) {
            return Some(i);
        }
        i = i + 1;
    }
    None
}

/// Whether `p` occurs somewhere in `t`.
pub fn text_contains(t: &str, p: &str) -> (b: bool)
    ensures
        b == (find_from(t@, p@, 0) is Some),
{
    match find_text(t, p, 0) {
        Some(_) => true,
        None => false,
    }
}

/// `replaced` of a suffix, one step at a match and one step past a non-match.
proof fn lemma_replaced_step(t: Seq<char>, p: Seq<char>, v: Seq<char>, i: int)
    requires
        p.len() > 0,
        0 <= i,
        i + p.len() <= t.len(),
    ensures
        occurs_at(t, p, i) ==> replaced(t.skip(i), p, v) == v + replaced(t.skip(i + p.len()), p, v),
        !occurs_at(t, p, i) ==> replaced(t.skip(i), p, v) == seq![t[i]] + replaced(t.skip(i + 1), p, v),
{
    let s = t.skip(i);
    assert(s.take(p.len() as int) =~= t.subrange(i, i + p.len()));
    assert(s.skip(p.len() as int) =~= t.skip(i + p.len()));
    assert(s.skip(1) =~= t.skip(i + 1));
}

/// `replaced` leaves a text shorter than the pattern unchanged.
proof fn lemma_replaced_short(t: Seq<char>, p: Seq<char>, v: Seq<char>, i: int)
    requires
        p.len() > 0,
        0 <= i <= t.len(),
        t.len() < i + p.len(),
    ensures
        replaced(t.skip(i), p, v) == t.skip(i),
{
}

/// Replaces every occurrence of the non-empty `p` in `t` by `v`.
pub fn replace_text(t: &str, p: &str, v: &str) -> (r: String)
    requires
        p@.len() > 0,
    ensures
        r@ == replaced(t@, p@, v@),
{
    let n = t.unicode_len();
    let m = p.unicode_len();
    let mut out = String::new();
    let mut seg: usize = 0;
    let mut i: usize = 0;
    proof {
        assert(t@.skip(0) =~= t@);
        assert(out@ + t@.subrange(0, 0) =~= Seq::<char>::empty());
    }
    while i < n && m <= n - i
        invariant
            n == t@.len(),
            m == p@.len(),
            m > 0,
            0 <= seg <= i <= n,
            out@ + t@.subrange(seg as int, i as int) + replaced(t@.skip(i as int), p@, v@) == replaced(t@, p@, v@),
        decreases n - i,
    {
        proof {
            lemma_replaced_step(t@, p@, v@, i as int);
        }
        if text_occurs_at(t, n, p, m, i) {
            let piece = t.substring_char(seg, i);
            out.append(piece);
            out.append(v);
            proof {
                assert(t@.subrange(i + m, i + m) =~= Seq::<char>::empty());
            }
            i = i + m;
            seg = i;
        } else {
            proof {
                assert(t@.subrange(seg as int, i + 1) =~= t@.subrange(seg as int, i as int) + seq![t@[i as int]]);
            }
            i = i + 1;
        }
    }
    proof {
        lemma_replaced_short(t@, p@, v@, i as int);
        assert(t@.subrange(seg as int, i as int) + t@.skip(i as int) =~= t@.skip(seg as int));
    }
    let rest = t.substring_char(seg, n);
    out.append(rest);
    proof {
        assert(t@.subrange(seg as int, n as int) =~= t@.skip(seg as int));
        assert(replaced(t@.skip(0), p@, v@) == replaced(t@, p@, v@)) by {
            assert(t@.skip(0) =~= t@);
        }
    }
    out
}

/// Copies a list of strings.
pub fn copy_strings(v: &Vec<String>) -> (r: Vec<String>)
    ensures
        r@ == v@,
{
    let mut r: Vec<String> = Vec::new();
    let mut i: usize = 0;
    while i < v.len()
        invariant
            0 <= i <= v.len(),
            r@ == v@.take(i as int),
        decreases v.len() - i,
    {
        r.push(v[i].clone());
        proof {
            assert(v@.take(i + 1) =~= v@.take(i as int).push(v@[i as int]));
        }
        i = i + 1;
    }
    proof {
        assert(v@.take(v.len() as int) =~= v@);
    }
    r
}

} // verus!
