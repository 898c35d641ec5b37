//! Character-level text vocabulary shared by the parsers: the meaning of
//! trimming, searching and splitting over `Seq<char>`, and executable
//! versions of each that work on `&[char]`.
use vstd::prelude::*;

verus! {

/// The characters that Rust's `char::is_whitespace` accepts (Unicode White_Space).
pub open spec fn is_ws(c: char) -> bool {
    ||| c == ' '
    ||| ('\t' <= c && c <= '\r')
    ||| c == '\u{85}'
    ||| c == '\u{A0}'
    ||| c == '\u{1680}'
    ||| ('\u{2000}' <= c && c <= '\u{200A}')
    ||| c == '\u{2028}'
    ||| c == '\u{2029}'
    ||| c == '\u{202F}'
    ||| c == '\u{205F}'
    ||| c == '\u{3000}'
}

pub open spec fn is_ascii_digit(c: char) -> bool {
    '0' <= c && c <= '9'
}

/// Removes leading characters accepted by `p`.
pub open spec fn strip_front(s: Seq<char>, p: spec_fn(char) -> bool) -> Seq<char>
    decreases s.len(),
{
    if s.len() > 0 && p(s[0]) {
        strip_front(s.drop_first(), p)
    } else {
        s
    }
}

/// Removes trailing characters accepted by `p`.
pub open spec fn strip_back(s: Seq<char>, p: spec_fn(char) -> bool) -> Seq<char>
    decreases s.len(),
{
    if s.len() > 0 && p(s.last()) {
        strip_back(s.drop_last(), p)
    } else {
        s
    }
}

pub open spec fn ws_pred() -> spec_fn(char) -> bool {
    |c: char| is_ws(c)
}

pub open spec fn set_pred(set: Seq<char>) -> spec_fn(char) -> bool {
    |c: char| set.contains(c)
}

/// `str::trim_start`
pub open spec fn trim_start(s: Seq<char>) -> Seq<char> {
    strip_front(s, ws_pred())
}

/// `str::trim_end`
pub open spec fn trim_end(s: Seq<char>) -> Seq<char> {
    strip_back(s, ws_pred())
}

/// `str::trim`
pub open spec fn trim(s: Seq<char>) -> Seq<char> {
    trim_end(trim_start(s))
}

/// `str::trim_matches` with a set of characters.
pub open spec fn trim_set(s: Seq<char>, set: Seq<char>) -> Seq<char> {
    strip_back(strip_front(s, set_pred(set)), set_pred(set))
}

pub open spec fn starts_with(s: Seq<char>, p: Seq<char>) -> bool {
    p.len() <= s.len() && s.subrange(0, p.len() as int) == p
}

pub open spec fn ends_with(s: Seq<char>, p: Seq<char>) -> bool {
    p.len() <= s.len() && s.subrange(s.len() - p.len(), s.len() as int) == p
}

/// `str::strip_prefix`
pub open spec fn strip_prefix(s: Seq<char>, p: Seq<char>) -> Option<Seq<char>> {
    if starts_with(s, p) {
        Some(s.skip(p.len() as int))
    } else {
        None
    }
}

/// `str::strip_suffix`
pub open spec fn strip_suffix(s: Seq<char>, p: Seq<char>) -> Option<Seq<char>> {
    if ends_with(s, p) {
        Some(s.take(s.len() - p.len()))
    } else {
        None
    }
}

pub open spec fn matches_at(s: Seq<char>, p: Seq<char>, i: int) -> bool {
    0 <= i && i + p.len() <= s.len() && s.subrange(i, i + p.len()) == p
}

/// First position at or after `i` where `p` occurs in `s`.
pub open spec fn find_from(s: Seq<char>, p: Seq<char>, i: int) -> Option<int>
    decreases s.len() + 1 - i,
{
    if i < 0 || i + p.len() > s.len() {
        None
    } else if matches_at(s, p, i) {
        Some(i)
    } else {
        find_from(s, p, i + 1)
    }
}

/// `str::find` with a string pattern.
pub open spec fn find(s: Seq<char>, p: Seq<char>) -> Option<int> {
    find_from(s, p, 0)
}

/// `str::contains` with a string pattern.
pub open spec fn contains(s: Seq<char>, p: Seq<char>) -> bool {
    find(s, p) is Some
}

/// First position of a character accepted by `p`.
pub open spec fn find_pred_from(s: Seq<char>, p: spec_fn(char) -> bool, i: int) -> Option<int>
    decreases s.len() - i,
{
    if i < 0 || i >= s.len() {
        None
    } else if p(s[i]) {
        Some(i)
    } else {
        find_pred_from(s, p, i + 1)
    }
}

pub open spec fn find_pred(s: Seq<char>, p: spec_fn(char) -> bool) -> Option<int> {
    find_pred_from(s, p, 0)
}

pub open spec fn eq_pred(c: char) -> spec_fn(char) -> bool {
    |x: char| x == c
}

/// `str::find` with a single character.
pub open spec fn find_char(s: Seq<char>, c: char) -> Option<int> {
    find_pred(s, eq_pred(c))
}

/// `str::rfind` with a single character.
pub open spec fn rfind_char(s: Seq<char>, c: char) -> Option<int>
    decreases s.len(),
{
    if s.len() == 0 {
        None
    } else if s.last() == c {
        Some(s.len() - 1)
    } else {
        rfind_char(s.drop_last(), c)
    }
}

/// `str::split` with a single character.
pub open spec fn split_char(s: Seq<char>, c: char) -> Seq<Seq<char>>
    decreases s.len(),
{
    match find_char(s, c) {
        None => seq![s],
        Some(i) => {
            if 0 <= i < s.len() {
                seq![s.take(i)] + split_char(s.skip(i + 1), c)
            } else {
                seq![s]
            }
        },
    }
}

/// `str::splitn(2, c)`: the text before the first `c`, and the rest after it.
pub open spec fn split_once(s: Seq<char>, c: char) -> Option<(Seq<char>, Seq<char>)> {
    match find_char(s, c) {
        None => None,
        Some(i) => Some((s.take(i), s.skip(i + 1))),
    }
}

/// One line of `str::lines`: a trailing `'\r'` goes with the `'\n'` that follows it.
pub open spec fn strip_cr(s: Seq<char>) -> Seq<char> {
    if s.len() > 0 && s.last() == '\r' {
        s.drop_last()
    } else {
        s
    }
}

/// `str::lines`
pub open spec fn lines(s: Seq<char>) -> Seq<Seq<char>>
    decreases s.len(),
{
    if s.len() == 0 {
        seq![]
    } else {
        match find_char(s, '\n') {
            None => seq![s],
            Some(i) => {
                if 0 <= i < s.len() {
                    seq![strip_cr(s.take(i))] + lines(s.skip(i + 1))
                } else {
                    seq![s]
                }
            },
        }
    }
}

/// `[..].join(sep)`
pub open spec fn join(parts: Seq<Seq<char>>, sep: Seq<char>) -> Seq<char>
    decreases parts.len(),
{
    if parts.len() == 0 {
        seq![]
    } else if parts.len() == 1 {
        parts[0]
    } else {
        join(parts.drop_last(), sep) + sep + parts.last()
    }
}

/// `str::replace` of one character by a string.
pub open spec fn replace_char(s: Seq<char>, from: char, to: Seq<char>) -> Seq<char>
    decreases s.len(),
{
    if s.len() == 0 {
        seq![]
    } else {
        (if s[0] == from { to } else { seq![s[0]] }) + replace_char(s.drop_first(), from, to)
    }
}

/// Decimal digits of a natural number, as `u32`'s `Display` writes them.
pub open spec fn decimal(n: nat) -> Seq<char>
    decreases n,
{
    if n < 10 {
        seq![digit_char(n)]
    } else {
        decimal(n / 10) + seq![digit_char(n % 10)]
    }
}

pub open spec fn digit_char(d: nat) -> char {
    if d == 0 { '0' }
    else if d == 1 { '1' }
    else if d == 2 { '2' }
    else if d == 3 { '3' }
    else if d == 4 { '4' }
    else if d == 5 { '5' }
    else if d == 6 { '6' }
    else if d == 7 { '7' }
    else if d == 8 { '8' }
    else { '9' }
}

pub open spec fn digit_value(c: char) -> nat {
    (c as int - '0' as int) as nat
}

/// Value of a string of ASCII digits.
pub open spec fn digits_value(s: Seq<char>) -> nat
    decreases s.len(),
{
    if s.len() == 0 {
        0
    } else {
        digits_value(s.drop_last()) * 10 + digit_value(s.last())
    }
}

pub open spec fn all_digits(s: Seq<char>) -> bool {
    forall|i: int| 0 <= i < s.len() ==> is_ascii_digit(#[trigger] s[i])
}

/// What `str::parse::<u32>` accepts: an optional `+`, then one or more ASCII
/// digits whose value fits in a `u32`.
pub open spec fn parse_u32(s: Seq<char>) -> Option<u32> {
    parse_unsigned_digits(without_plus(s))
}

pub open spec fn without_plus(s: Seq<char>) -> Seq<char> {
    if s.len() > 0 && s[0] == '+' {
        s.drop_first()
    } else {
        s
    }
}

pub open spec fn parse_unsigned_digits(d: Seq<char>) -> Option<u32> {
    if d.len() > 0 && all_digits(d) && digits_value(d) <= u32::MAX {
        Some(digits_value(d) as u32)
    } else {
        None
    }
}

pub open spec fn opt_view(o: Option<String>) -> Option<Seq<char>> {
    match o {
        Some(s) => Some(s@),
        None => None,
    }
}

pub open spec fn strs_view(v: Seq<String>) -> Seq<Seq<char>> {
    v.map_values(|s: String| s@)
}

/// The text after the last `c` (all of it when there is none): `s.split(c).last()`.
pub open spec fn after_last(s: Seq<char>, c: char) -> Seq<char> {
    match rfind_char(s, c) {
        Some(i) => s.skip(i + 1),
        None => s,
    }
}

/// The text before the first `c` (all of it when there is none): `s.split(c).next()`.
pub open spec fn before_first(s: Seq<char>, c: char) -> Seq<char> {
    match find_char(s, c) {
        Some(i) => s.take(i),
        None => s,
    }
}

/// `str::trim_start_matches` with a string pattern: every leading copy goes.
pub open spec fn strip_prefix_all(s: Seq<char>, p: Seq<char>) -> Seq<char>
    decreases s.len(),
{
    if p.len() > 0 && starts_with(s, p) {
        strip_prefix_all(s.skip(p.len() as int), p)
    } else {
        s
    }
}

pub open spec fn vecs_view(v: Seq<Vec<char>>) -> Seq<Seq<char>> {
    v.map_values(|x: Vec<char>| x@)
}

// ----------------------------------------------------------------------
// Lemmas
// ----------------------------------------------------------------------

pub proof fn lemma_strip_front_suffix(s: Seq<char>, p: spec_fn(char) -> bool)
    ensures
        strip_front(s, p).len() <= s.len(),
        strip_front(s, p) == s.skip(s.len() - strip_front(s, p).len()),
        strip_front(s, p).len() > 0 ==> !p(strip_front(s, p)[0]),
        forall|i: int| 0 <= i < s.len() - strip_front(s, p).len() ==> p(#[trigger] s[i]),
    decreases s.len(),
{
    if s.len() > 0 && p(s[0]) {
        lemma_strip_front_suffix(s.drop_first(), p);
        let r = strip_front(s.drop_first(), p);
        assert(s.drop_first().skip(s.drop_first().len() - r.len()) =~= s.skip(s.len() - r.len()));
        assert forall|i: int| 0 <= i < s.len() - r.len() implies p(#[trigger] s[i]) by {
            if i > 0 {
                assert(s[i] == s.drop_first()[i - 1]);
            }
        }
    } else {
        assert(s.skip(0) =~= s);
    }
}

pub proof fn lemma_strip_back_prefix(s: Seq<char>, p: spec_fn(char) -> bool)
    ensures
        strip_back(s, p).len() <= s.len(),
        strip_back(s, p) == s.take(strip_back(s, p).len() as int),
        strip_back(s, p).len() > 0 ==> !p(strip_back(s, p).last()),
        forall|i: int| strip_back(s, p).len() <= i < s.len() ==> p(#[trigger] s[i]),
    decreases s.len(),
{
    if s.len() > 0 && p(s.last()) {
        lemma_strip_back_prefix(s.drop_last(), p);
        let r = strip_back(s.drop_last(), p);
        assert(s.drop_last().take(r.len() as int) =~= s.take(r.len() as int));
        assert forall|i: int| r.len() <= i < s.len() implies p(#[trigger] s[i]) by {
            if i < s.len() - 1 {
                assert(s[i] == s.drop_last()[i]);
            }
        }
    } else {
        assert(s.take(s.len() as int) =~= s);
    }
}

/// `strip_front` on a subrange that starts with accepted characters.
proof fn lemma_strip_front_step(s: Seq<char>, p: spec_fn(char) -> bool, i: int, hi: int)
    requires
        0 <= i < hi <= s.len(),
        p(s[i]),
    ensures
        strip_front(s.subrange(i, hi), p) == strip_front(s.subrange(i + 1, hi), p),
{
    assert(s.subrange(i, hi).drop_first() =~= s.subrange(i + 1, hi));
}

proof fn lemma_strip_back_step(s: Seq<char>, p: spec_fn(char) -> bool, lo: int, j: int)
    requires
        0 <= lo < j <= s.len(),
        p(s[j - 1]),
    ensures
        strip_back(s.subrange(lo, j), p) == strip_back(s.subrange(lo, j - 1), p),
{
    assert(s.subrange(lo, j).drop_last() =~= s.subrange(lo, j - 1));
}

pub proof fn lemma_find_pred_from(s: Seq<char>, p: spec_fn(char) -> bool, i: int)
    requires
        0 <= i,
    ensures
        match find_pred_from(s, p, i) {
            Some(k) => i <= k < s.len() && p(s[k]) && forall|j: int| i <= j < k ==> !p(#[trigger] s[j]),
            None => forall|j: int| i <= j < s.len() ==> !p(#[trigger] s[j]),
        },
    decreases s.len() - i,
{
    if i < s.len() && !p(s[i]) {
        lemma_find_pred_from(s, p, i + 1);
    }
}

pub proof fn lemma_find_from(s: Seq<char>, pat: Seq<char>, i: int)
    requires
        0 <= i,
    ensures
        match find_from(s, pat, i) {
            Some(k) => i <= k && matches_at(s, pat, k) && forall|j: int|
                i <= j < k ==> !matches_at(s, pat, j),
            None => forall|j: int| i <= j ==> !matches_at(s, pat, j),
        },
    decreases s.len() + 1 - i,
{
    if i + pat.len() <= s.len() && !matches_at(s, pat, i) {
        lemma_find_from(s, pat, i + 1);
    }
}

pub proof fn lemma_find_char(s: Seq<char>, c: char)
    ensures
        match find_char(s, c) {
            Some(k) => 0 <= k < s.len() && s[k] == c && forall|j: int| 0 <= j < k ==> s[j] != c,
            None => forall|j: int| 0 <= j < s.len() ==> s[j] != c,
        },
{
    lemma_find_pred_from(s, eq_pred(c), 0);
}

pub proof fn lemma_rfind_char(s: Seq<char>, c: char)
    ensures
        match rfind_char(s, c) {
            Some(k) => 0 <= k < s.len() && s[k] == c && forall|j: int| k < j < s.len() ==> s[j] != c,
            None => forall|j: int| 0 <= j < s.len() ==> s[j] != c,
        },
    decreases s.len(),
{
    if s.len() > 0 && s.last() != c {
        lemma_rfind_char(s.drop_last(), c);
        assert forall|j: int| 0 <= j < s.len() - 1 implies s.drop_last()[j] == s[j] by {}
    }
}

// ----------------------------------------------------------------------
// Executable helpers
// ----------------------------------------------------------------------

/// Appends a character to a `String` (`String::push`).
#[verifier::external_body]
pub fn push_char(s: &mut String, c: char)
    ensures
        final(s)@ == old(s)@.push(c),
{
    s.push(c);
}

/// The characters of a string.
pub fn chars_of(s: &str) -> (r: Vec<char>)
    ensures
        r@ == s@,
{
    let n = s.unicode_len();
    let mut r: Vec<char> = Vec::new();
    let mut i: usize = 0;
    while i < n
        invariant
            n == s@.len(),
            i <= n,
            r@ == s@.take(i as int),
        decreases n - i,
    {
        let c = s.get_char(i);
        r.push(c);
        assert(s@.take(i + 1) =~= s@.take(i as int).push(c));
        i = i + 1;
    }
    assert(s@.take(n as int) =~= s@);
    r
}

/// A `String` holding the given characters.
pub fn string_of(v: &[char]) -> (r: String)
    ensures
        r@ == v@,
{
    let mut r = String::new();
    let mut i: usize = 0;
    while i < v.len()
        invariant
            i <= v@.len(),
            r@ == v@.take(i as int),
        decreases v.len() - i,
    {
        push_char(&mut r, v[i]);
        assert(v@.take(i + 1) =~= v@.take(i as int).push(v@[i as int]));
        i = i + 1;
    }
    assert(v@.take(v@.len() as int) =~= v@);
    r
}

/// Appends characters to a `String`.
pub fn push_chars(s: &mut String, v: &[char])
    ensures
        final(s)@ == old(s)@ + v@,
{
    let mut i: usize = 0;
    while i < v.len()
        invariant
            i <= v@.len(),
            s@ == old(s)@ + v@.take(i as int),
        decreases v.len() - i,
    {
        push_char(s, v[i]);
        assert(v@.take(i + 1) =~= v@.take(i as int).push(v@[i as int]));
        i = i + 1;
    }
    assert(v@.take(v@.len() as int) =~= v@);
}

/// Appends a string to a `String`.
pub fn push_str(s: &mut String, t: &str)
    ensures
        final(s)@ == old(s)@ + t@,
{
    let v = chars_of(t);
    push_chars(s, v.as_slice());
}

pub fn is_ws_char(c: char) -> (b: bool)
    ensures
        b == is_ws(c),
{
    c == ' ' || ('\t' <= c && c <= '\r') || c == '\u{85}' || c == '\u{A0}' || c == '\u{1680}'
        || ('\u{2000}' <= c && c <= '\u{200A}') || c == '\u{2028}' || c == '\u{2029}'
        || c == '\u{202F}' || c == '\u{205F}' || c == '\u{3000}'
}

pub fn in_set(c: char, set: &[char]) -> (b: bool)
    ensures
        b == set@.contains(c),
{
    let mut i: usize = 0;
    while i < set.len()
        invariant
            i <= set@.len(),
            forall|j: int| 0 <= j < i ==> set@[j] != c,
        decreases set.len() - i,
    {
        if set[i] == c {
            return true;
        }
        i = i + 1;
    }
    false
}

/// The bounds `(a, b)` of `trim(s)` inside `s`.
pub fn trim_bounds(s: &[char]) -> (r: (usize, usize))
    ensures
        r.0 <= r.1 <= s@.len(),
        s@.subrange(r.0 as int, r.1 as int) == trim(s@),
{
    let n = s.len();
    let mut i: usize = 0;
    assert(s@.subrange(0, n as int) =~= s@);
    while i < n && is_ws_char(s[i])
        invariant
            i <= n == s@.len(),
            strip_front(s@.subrange(i as int, n as int), ws_pred()) == trim_start(s@),
        decreases n - i,
    {
        proof {
            lemma_strip_front_step(s@, ws_pred(), i as int, n as int);
        }
        i = i + 1;
    }
    let ghost ts = s@.subrange(i as int, n as int);
    assert(trim_start(s@) == ts);
    let mut j: usize = n;
    assert(s@.subrange(i as int, j as int) == ts);
    while j > i && is_ws_char(s[j - 1])
        invariant
            i <= j <= n == s@.len(),
            ts == s@.subrange(i as int, n as int),
            strip_back(s@.subrange(i as int, j as int), ws_pred()) == trim_end(ts),
        decreases j - i,
    {
        proof {
            lemma_strip_back_step(s@, ws_pred(), i as int, j as int);
        }
        j = j - 1;
    }
    (i, j)
}

/// `trim` over characters.
pub fn trim_chars(s: &[char]) -> (r: &[char])
    ensures
        r@ == trim(s@),
{
    let (a, b) = trim_bounds(s);
    &s[a..b]
}

/// `trim_matches` with a set of characters.
pub fn trim_set_chars<'a>(s: &'a [char], set: &[char]) -> (r: &'a [char])
    ensures
        r@ == trim_set(s@, set@),
{
    let n = s.len();
    let mut i: usize = 0;
    assert(s@.subrange(0, n as int) =~= s@);
    while i < n && in_set(s[i], set)
        invariant
            i <= n == s@.len(),
            strip_front(s@.subrange(i as int, n as int), set_pred(set@)) == strip_front(
                s@,
                set_pred(set@),
            ),
        decreases n - i,
    {
        proof {
            lemma_strip_front_step(s@, set_pred(set@), i as int, n as int);
        }
        i = i + 1;
    }
    let ghost ts = s@.subrange(i as int, n as int);
    let mut j: usize = n;
    while j > i && in_set(s[j - 1], set)
        invariant
            i <= j <= n == s@.len(),
            ts == s@.subrange(i as int, n as int),
            strip_back(s@.subrange(i as int, j as int), set_pred(set@)) == strip_back(
                ts,
                set_pred(set@),
            ),
        decreases j - i,
    {
        proof {
            lemma_strip_back_step(s@, set_pred(set@), i as int, j as int);
        }
        j = j - 1;
    }
    &s[i..j]
}

pub fn starts_with_chars(s: &[char], p: &[char]) -> (b: bool)
    ensures
        b == starts_with(s@, p@),
{
    if p.len() > s.len() {
        return false;
    }
    let mut i: usize = 0;
    while i < p.len()
        invariant
            p@.len() <= s@.len(),
            i <= p@.len(),
            forall|j: int| 0 <= j < i ==> s@[j] == p@[j],
        decreases p.len() - i,
    {
        if s[i] != p[i] {
            assert(s@.subrange(0, p@.len() as int)[i as int] != p@[i as int]);
            return false;
        }
        i = i + 1;
    }
    assert(s@.subrange(0, p@.len() as int) =~= p@);
    true
}

pub fn ends_with_chars(s: &[char], p: &[char]) -> (b: bool)
    ensures
        b == ends_with(s@, p@),
{
    if p.len() > s.len() {
        return false;
    }
    let off = s.len() - p.len();
    let b = starts_with_chars(&s[off..s.len()], p);
    proof {
        let t = s@.subrange(off as int, s@.len() as int);
        assert(t.subrange(0, p@.len() as int) =~= t);
    }
    b
}

/// Whether `p` occurs at position `i` of `s`.
pub fn matches_at_chars(s: &[char], p: &[char], i: usize) -> (b: bool)
    ensures
        b == matches_at(s@, p@, i as int),
{
    if i > s.len() || p.len() > s.len() - i {
        return false;
    }
    let b = starts_with_chars(&s[i..s.len()], p);
    proof {
        let t = s@.subrange(i as int, s@.len() as int);
        assert(t.subrange(0, p@.len() as int) =~= s@.subrange(i as int, i + p@.len()));
    }
    b
}

/// `str::find` with a string pattern.
pub fn find_chars(s: &[char], p: &[char]) -> (r: Option<usize>)
    ensures
        r matches Some(k) ==> find(s@, p@) == Some(k as int),
        r is None ==> find(s@, p@) is None,
{
    if p.len() > s.len() {
        return None;
    }
    if p.len() == 0 {
        assert(matches_at(s@, p@, 0)) by {
            assert(s@.subrange(0, 0) =~= p@);
        }
        return Some(0);
    }
    let last = s.len() - p.len();
    let mut i: usize = 0;
    while i <= last
        invariant
            p@.len() > 0,
            last == s@.len() - p@.len(),
            last < s.len(),
            i <= last + 1,
            find_from(s@, p@, 0) == find_from(s@, p@, i as int),
        decreases last + 1 - i,
    {
        if matches_at_chars(s, p, i) {
            return Some(i);
        }
        i = i + 1;
    }
    None
}

/// `str::find` with a single character.
pub fn find_char_chars(s: &[char], c: char) -> (r: Option<usize>)
    ensures
        r matches Some(k) ==> find_char(s@, c) == Some(k as int),
        r is None ==> find_char(s@, c) is None,
{
    let mut i: usize = 0;
    while i < s.len()
        invariant
            i <= s@.len(),
            find_pred_from(s@, eq_pred(c), 0) == find_pred_from(s@, eq_pred(c), i as int),
        decreases s.len() - i,
    {
        if s[i] == c {
            return Some(i);
        }
        i = i + 1;
    }
    None
}

/// `str::rfind` with a single character.
pub fn rfind_char_chars(s: &[char], c: char) -> (r: Option<usize>)
    ensures
        r matches Some(k) ==> rfind_char(s@, c) == Some(k as int),
        r is None ==> rfind_char(s@, c) is None,
{
    let mut j: usize = s.len();
    assert(s@.subrange(0, j as int) =~= s@);
    while j > 0
        invariant
            j <= s@.len(),
            rfind_char(s@, c) == rfind_char(s@.subrange(0, j as int), c),
        decreases j,
    {
        if s[j - 1] == c {
            return Some(j - 1);
        }
        assert(s@.subrange(0, j as int).drop_last() =~= s@.subrange(0, j - 1));
        j = j - 1;
    }
    None
}

/// Equality of two character sequences.
pub fn chars_eq(a: &[char], b: &[char]) -> (r: bool)
    ensures
        r == (a@ == b@),
{
    if a.len() != b.len() {
        return false;
    }
    let r = starts_with_chars(a, b);
    assert(a@.subrange(0, b@.len() as int) =~= a@);
    r
}

/// Equality of two strings.
pub fn str_eq(a: &str, b: &str) -> (r: bool)
    ensures
        r == (a@ == b@),
{
    let va = chars_of(a);
    let vb = chars_of(b);
    chars_eq(va.as_slice(), vb.as_slice())
}

/// Whether characters spell the given literal.
pub fn eq_lit(v: &[char], lit: &str) -> (r: bool)
    ensures
        r == (v@ == lit@),
{
    let l = chars_of(lit);
    chars_eq(v, l.as_slice())
}

/// Whether characters start with the given literal.
pub fn starts_with_lit(v: &[char], lit: &str) -> (r: bool)
    ensures
        r == starts_with(v@, lit@),
{
    let l = chars_of(lit);
    starts_with_chars(v, l.as_slice())
}

/// `str::contains` with a string pattern.
pub fn contains_chars(s: &[char], p: &[char]) -> (b: bool)
    ensures
        b == contains(s@, p@),
{
    find_chars(s, p).is_some()
}

/// `str::contains` with a single character.
pub fn contains_char(s: &[char], c: char) -> (b: bool)
    ensures
        b == s@.contains(c),
{
    in_set(c, s)
}

pub proof fn lemma_find_char_contains(s: Seq<char>, c: char)
    ensures
        find_char(s, c) is Some <==> s.contains(c),
{
    lemma_find_char(s, c);
    if s.contains(c) {
        let k = choose|k: int| 0 <= k < s.len() && s[k] == c;
        assert(s[k] == c);
    }
}

/// `str::replace` of one character by a string.
pub fn replace_char_chars(s: &[char], from: char, to: &[char]) -> (r: String)
    ensures
        r@ == replace_char(s@, from, to@),
{
    let mut r = String::new();
    let mut pieces: Vec<char> = Vec::new();
    let mut k: usize = 0;
    assert(s@.skip(0) =~= s@);
    while k < s.len()
        invariant
            k <= s@.len(),
            replace_char(s@, from, to@) == pieces@ + replace_char(s@.skip(k as int), from, to@),
        decreases s.len() - k,
    {
        let ghost before = pieces@;
        if s[k] == from {
            let mut j: usize = 0;
            while j < to.len()
                invariant
                    j <= to@.len(),
                    pieces@ == before + to@.take(j as int),
                decreases to.len() - j,
            {
                pieces.push(to[j]);
                assert(to@.take(j + 1) =~= to@.take(j as int).push(to@[j as int]));
                j = j + 1;
            }
            assert(to@.take(to@.len() as int) =~= to@);
        } else {
            pieces.push(s[k]);
        }
        proof {
            let t = s@.skip(k as int);
            assert(t.drop_first() =~= s@.skip(k + 1));
            assert(t[0] == s@[k as int]);
            if s@[k as int] == from {
                assert(pieces@ =~= before + to@);
            } else {
                assert(pieces@ =~= before + seq![s@[k as int]]);
            }
        }
        k = k + 1;
    }
    proof {
        assert(s@.skip(s@.len() as int) =~= Seq::<char>::empty());
        assert(pieces@ + seq![] =~= pieces@);
    }
    push_chars(&mut r, pieces.as_slice());
    r
}

/// `str::strip_prefix` with a literal.
pub fn strip_prefix_lit<'a>(v: &'a [char], lit: &str) -> (r: Option<&'a [char]>)
    ensures
        match r {
            Some(x) => strip_prefix(v@, lit@) == Some(x@),
            None => strip_prefix(v@, lit@) is None,
        },
{
    let l = chars_of(lit);
    if starts_with_chars(v, l.as_slice()) {
        let x = &v[l.len()..v.len()];
        assert(x@ =~= v@.skip(l@.len() as int));
        Some(x)
    } else {
        None
    }
}

/// `str::trim_start_matches` with a literal.
pub fn strip_prefix_all_lit<'a>(v: &'a [char], lit: &str) -> (r: &'a [char])
    ensures
        r@ == strip_prefix_all(v@, lit@),
{
    let l = chars_of(lit);
    let mut start: usize = 0;
    assert(v@.skip(0) =~= v@);
    while l.len() > 0 && start <= v.len() && starts_with_chars(&v[start..v.len()], l.as_slice())
        invariant
            start <= v@.len(),
            l@ == lit@,
            strip_prefix_all(v@, lit@) == strip_prefix_all(v@.skip(start as int), lit@),
        decreases v@.len() - start,
    {
        assert(v@.subrange(start as int, v@.len() as int) =~= v@.skip(start as int));
        assert(v@.skip(start as int).skip(l@.len() as int) =~= v@.skip(start + l@.len()));
        start = start + l.len();
    }
    assert(v@.subrange(start as int, v@.len() as int) =~= v@.skip(start as int));
    &v[start..v.len()]
}

/// The text after the last `c`.
pub fn after_last_chars(s: &[char], c: char) -> (r: &[char])
    ensures
        r@ == after_last(s@, c),
{
    match rfind_char_chars(s, c) {
        Some(i) => {
            proof { lemma_rfind_char(s@, c); }
            assert(rfind_char(s@, c) == Some(i as int));
            let n = s.len();
            assert(i < n);
            let r = &s[i + 1..n];
            assert(r@ =~= s@.skip(i + 1));
            r
        },
        None => s,
    }
}

/// The text before the first `c`.
pub fn before_first_chars(s: &[char], c: char) -> (r: &[char])
    ensures
        r@ == before_first(s@, c),
{
    match find_char_chars(s, c) {
        Some(i) => {
            proof { lemma_find_char(s@, c); }
            let r = &s[0..i];
            assert(r@ =~= s@.take(i as int));
            r
        },
        None => s,
    }
}

/// `str::lines`, as owned lines.
pub fn lines_chars(s: &[char]) -> (r: Vec<Vec<char>>)
    ensures
        vecs_view(r@) == lines(s@),
{
    let mut r: Vec<Vec<char>> = Vec::new();
    let mut pos: usize = 0;
    assert(s@.skip(0) =~= s@);
    while pos < s.len()
        invariant
            pos <= s@.len(),
            lines(s@) == vecs_view(r@) + lines(s@.skip(pos as int)),
        decreases s@.len() - pos,
    {
        let rest = &s[pos..s.len()];
        assert(rest@ =~= s@.skip(pos as int));
        let ghost old_r = r@;
        match find_char_chars(rest, '\n') {
            None => {
                r.push(copy_chars(rest));
                proof {
                    assert(vecs_view(r@) =~= vecs_view(old_r).push(rest@));
                    assert(s@.skip(s@.len() as int) =~= Seq::<char>::empty());
                    assert(vecs_view(old_r) + seq![rest@] =~= vecs_view(r@) + lines(s@.skip(s@.len() as int)));
                }
                pos = s.len();
            },
            Some(i) => {
                proof { lemma_find_char(rest@, '\n'); }
                let line: &[char] = if i > 0 && rest[i - 1] == '\r' { &rest[0..i - 1] } else { &rest[0..i] };
                assert(line@ =~= strip_cr(rest@.take(i as int)));
                r.push(copy_chars(line));
                proof {
                    assert(rest@.skip(i + 1) =~= s@.skip(pos + i + 1));
                    assert(vecs_view(r@) =~= vecs_view(old_r).push(line@));
                    assert(vecs_view(old_r) + (seq![line@] + lines(rest@.skip(i + 1)))
                        =~= vecs_view(r@) + lines(rest@.skip(i + 1)));
                }
                pos = pos + i + 1;
            },
        }
    }
    assert(s@.skip(pos as int) =~= Seq::<char>::empty());
    assert(vecs_view(r@) + seq![] =~= vecs_view(r@));
    r
}

/// Appends characters to a vector of characters.
pub fn push_vec(v: &mut Vec<char>, t: &[char])
    ensures
        final(v)@ == old(v)@ + t@,
{
    let mut i: usize = 0;
    while i < t.len()
        invariant
            i <= t@.len(),
            v@ == old(v)@ + t@.take(i as int),
        decreases t.len() - i,
    {
        v.push(t[i]);
        assert(t@.take(i + 1) =~= t@.take(i as int).push(t@[i as int]));
        i = i + 1;
    }
    assert(t@.take(t@.len() as int) =~= t@);
}

/// An owned copy of characters.
pub fn copy_chars(s: &[char]) -> (r: Vec<char>)
    ensures
        r@ == s@,
{
    let mut r: Vec<char> = Vec::new();
    let mut i: usize = 0;
    while i < s.len()
        invariant
            i <= s@.len(),
            r@ == s@.take(i as int),
        decreases s.len() - i,
    {
        r.push(s[i]);
        assert(s@.take(i + 1) =~= s@.take(i as int).push(s@[i as int]));
        i = i + 1;
    }
    assert(s@.take(s@.len() as int) =~= s@);
    r
}

/// `str::split` with a single character, as owned pieces.
pub fn split_char_chars(s: &[char], c: char) -> (r: Vec<Vec<char>>)
    ensures
        vecs_view(r@) == split_char(s@, c),
{
    let mut r: Vec<Vec<char>> = Vec::new();
    let mut pos: usize = 0;
    assert(s@.skip(0) =~= s@);
    loop
        invariant
            pos <= s@.len(),
            split_char(s@, c) == vecs_view(r@) + split_char(s@.skip(pos as int), c),
        decreases s@.len() - pos,
    {
        let rest = &s[pos..s.len()];
        assert(rest@ =~= s@.skip(pos as int));
        match find_char_chars(rest, c) {
            None => {
                let piece = copy_chars(rest);
                let ghost old_r = r@;
                r.push(piece);
                proof {
                    assert(vecs_view(r@) =~= vecs_view(old_r).push(rest@));
                    assert(seq![rest@] + seq![] =~= seq![rest@]);
                    assert(vecs_view(old_r) + seq![rest@] =~= vecs_view(old_r).push(rest@));
                }
                return r;
            },
            Some(i) => {
                proof {
                    lemma_find_char(rest@, c);
                }
                let piece = copy_chars(&rest[0..i]);
                let ghost old_r = r@;
                r.push(piece);
                proof {
                    assert(piece@ =~= rest@.take(i as int));
                    assert(rest@.skip(i + 1) =~= s@.skip(pos + i + 1));
                    assert(vecs_view(r@) =~= vecs_view(old_r).push(rest@.take(i as int)));
                    assert(vecs_view(old_r) + (seq![rest@.take(i as int)] + split_char(rest@.skip(i + 1), c))
                        =~= vecs_view(r@) + split_char(rest@.skip(i + 1), c));
                }
                pos = pos + i + 1;
            },
        }
    }
}

/// `[..].join(sep)` over strings.
pub fn join_strings(parts: &Vec<String>, sep: &[char]) -> (r: String)
    ensures
        r@ == join(strs_view(parts@), sep@),
{
    let mut r = String::new();
    let mut i: usize = 0;
    while i < parts.len()
        invariant
            i <= parts@.len(),
            r@ == join(strs_view(parts@).take(i as int), sep@),
        decreases parts.len() - i,
    {
        let ghost before = strs_view(parts@).take(i as int);
        if i > 0 {
            push_chars(&mut r, sep);
        }
        push_str(&mut r, parts[i].as_str());
        proof {
            let after = strs_view(parts@).take(i + 1);
            assert(after.drop_last() =~= before);
            assert(after.last() == parts@[i as int]@);
            if i == 0 {
                assert(after.len() == 1);
            }
        }
        i = i + 1;
    }
    assert(strs_view(parts@).take(parts@.len() as int) =~= strs_view(parts@));
    r
}

/// The decimal text of a `u32`.
pub fn u32_to_string(n: u32) -> (r: String)
    ensures
        r@ == decimal(n as nat),
{
    u64_to_string(n as u64)
}

/// The decimal text of a `u64`.
pub fn u64_to_string(n: u64) -> (r: String)
    ensures
        r@ == decimal(n as nat),
    decreases n,
{
    if n < 10 {
        let mut r = String::new();
        push_char(&mut r, digit(n));
        r
    } else {
        let mut r = u64_to_string(n / 10);
        push_char(&mut r, digit(n % 10));
        r
    }
}

fn digit(d: u64) -> (c: char)
    requires
        d < 10,
    ensures
        c == digit_char(d as nat),
{
    if d == 0 { '0' }
    else if d == 1 { '1' }
    else if d == 2 { '2' }
    else if d == 3 { '3' }
    else if d == 4 { '4' }
    else if d == 5 { '5' }
    else if d == 6 { '6' }
    else if d == 7 { '7' }
    else if d == 8 { '8' }
    else { '9' }
}

/// `str::parse::<u32>`
pub fn parse_u32_chars(s: &[char]) -> (r: Option<u32>)
    ensures
        r == parse_u32(s@),
{
    let start: usize = if s.len() > 0 && s[0] == '+' { 1 } else { 0 };
    let ghost d = without_plus(s@);
    assert(d =~= s@.subrange(start as int, s@.len() as int));
    if start >= s.len() {
        return None;
    }
    let mut acc: u64 = 0;
    let mut i: usize = start;
    while i < s.len()
        invariant
            start <= i <= s@.len(),
            start < s@.len(),
            d == s@.subrange(start as int, s@.len() as int),
            d == without_plus(s@),
            all_digits(s@.subrange(start as int, i as int)),
            acc as nat == digits_value(s@.subrange(start as int, i as int)),
            acc <= u32::MAX,
        decreases s.len() - i,
    {
        let c = s[i];
        if !('0' <= c && c <= '9') {
            assert(d[i - start] == c);
            assert(!is_ascii_digit(d[i - start]));
            assert(!all_digits(d));
            return None;
        }
        let dv: u64 = (c as u32 - '0' as u32) as u64;
        let ghost pre = s@.subrange(start as int, i as int);
        assert(s@.subrange(start as int, i + 1).drop_last() =~= pre);
        assert(all_digits(s@.subrange(start as int, i + 1))) by {
            assert forall|j: int| 0 <= j < i + 1 - start implies is_ascii_digit(
                #[trigger] s@.subrange(start as int, i + 1)[j],
            ) by {
                if j < i - start {
                    assert(s@.subrange(start as int, i + 1)[j] == pre[j]);
                }
            }
        }
        let next: u64 = acc * 10 + dv;
        assert(s@.subrange(start as int, i + 1).last() == c);
        assert(digit_value(c) == dv);
        assert(digits_value(s@.subrange(start as int, i + 1)) == next);
        if next > 4294967295u64 {
            proof {
                lemma_digits_prefix_monotone(s@.subrange(start as int, s@.len() as int), (i + 1 - start) as int);
                assert(s@.subrange(start as int, s@.len() as int).take((i + 1 - start) as int) =~= s@.subrange(start as int, i + 1));
            }
            return None;
        }
        acc = next;
        i = i + 1;
    }
    Some(acc as u32)
}

/// A prefix of a digit string never has a larger value than the whole.
pub proof fn lemma_digits_prefix_monotone(s: Seq<char>, k: int)
    requires
        0 <= k <= s.len(),
    ensures
        all_digits(s) ==> digits_value(s.take(k)) <= digits_value(s),
    decreases s.len() - k,
{
    if k < s.len() {
        lemma_digits_prefix_monotone(s, k + 1);
        assert(s.take(k + 1).drop_last() =~= s.take(k));
        if all_digits(s) {
            assert(s.take(k + 1).last() == s[k]);
        }
    } else {
        assert(s.take(k) =~= s);
    }
}

} // verus!
