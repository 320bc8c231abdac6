//! Character-level building blocks shared by the reader and the writer:
//! line splitting, trimming, prefix tests, leaf-text extraction, and the
//! decimal reading and writing of `i32` values.
use vstd::prelude::*;
use vstd::std_specs::iter::IteratorSpec;

verus! {

// ---------------------------------------------------------------------------
// Specifications
// ---------------------------------------------------------------------------

/// `char::is_whitespace`: the Unicode `White_Space` property.
pub open spec fn is_ws(c: char) -> bool {
    c == '\t' || c == '\n' || c == '\x0B' || c == '\x0C' || c == '\r' || c == ' '
        || c == '\u{85}' || c == '\u{A0}' || c == '\u{1680}'
        || ('\u{2000}' <= c && c <= '\u{200A}') || c == '\u{2028}' || c == '\u{2029}'
        || c == '\u{202F}' || c == '\u{205F}' || c == '\u{3000}'
}

/// `s` with its leading whitespace removed.
pub open spec fn trim_start(s: Seq<char>) -> Seq<char>
    decreases s.len(),
{
    if s.len() > 0 && is_ws(s[0]) {
        trim_start(s.drop_first())
    } else {
        s
    }
}

/// `s` with its trailing whitespace removed.
pub open spec fn trim_end(s: Seq<char>) -> Seq<char>
    decreases s.len(),
{
    if s.len() > 0 && is_ws(s.last()) {
        trim_end(s.drop_last())
    } else {
        s
    }
}

/// `s` with whitespace removed at both ends, as `str::trim` does.
pub open spec fn trim(s: Seq<char>) -> Seq<char> {
    trim_end(trim_start(s))
}

/// The pieces of `s` between line feeds (always at least one piece).
pub open spec fn split_lf(s: Seq<char>) -> Seq<Seq<char>>
    decreases s.len(),
{
    if s.len() == 0 {
        seq![Seq::empty()]
    } else {
        let r = split_lf(s.drop_last());
        if s.last() == '\n' {
            r.push(Seq::empty())
        } else {
            r.update(r.len() - 1, r.last().push(s.last()))
        }
    }
}

/// A line that was ended by a line feed loses one carriage return before it.
pub open spec fn strip_cr(l: Seq<char>) -> Seq<char> {
    if l.len() > 0 && l.last() == '\r' {
        l.drop_last()
    } else {
        l
    }
}

/// The lines of `s`, as `str::lines` yields them: split at `\n`, a `\r`
/// right before a `\n` dropped, and no empty line after a final `\n`.
pub open spec fn lines_of(s: Seq<char>) -> Seq<Seq<char>> {
    let p = split_lf(s);
    let ended = p.drop_last().map_values(|l: Seq<char>| strip_cr(l));
    if p.last().len() == 0 {
        ended
    } else {
        ended.push(p.last())
    }
}

/// Whether `s` begins with `p`.
pub open spec fn starts_with(s: Seq<char>, p: Seq<char>) -> bool {
    p.len() <= s.len() && forall|k: int| 0 <= k < p.len() ==> s[k] == p[k]
}

/// Whether `p` occurs in `s` at position `k`.
pub open spec fn occurs_at(s: Seq<char>, p: Seq<char>, k: int) -> bool {
    0 <= k && k + p.len() <= s.len() && s.subrange(k, k + p.len()) == p
}

/// The first position at or after `i` where `p` occurs in `s`.
pub open spec fn find_from(s: Seq<char>, p: Seq<char>, i: int) -> Option<int>
    decreases s.len() + 1 - i,
{
    if i < 0 || i > s.len() - p.len() {
        None
    } else if occurs_at(s, p, i) {
        Some(i)
    } else {
        find_from(s, p, i + 1)
    }
}

/// The first position at or after `i` that holds `c`.
pub open spec fn find_char_from(s: Seq<char>, c: char, i: int) -> Option<int>
    decreases s.len() - i,
{
    if i < 0 || i >= s.len() {
        None
    } else if s[i] == c {
        Some(i)
    } else {
        find_char_from(s, c, i + 1)
    }
}

/// The last position in `[lo, hi)` that holds `c`.
pub open spec fn rfind_char_in(s: Seq<char>, c: char, lo: int, hi: int) -> Option<int>
    decreases hi - lo,
{
    if hi <= lo {
        None
    } else if s[hi - 1] == c {
        Some(hi - 1)
    } else {
        rfind_char_in(s, c, lo, hi - 1)
    }
}

/// Where the text of a leaf line begins: just after the first `>`, or at 0.
pub open spec fn leaf_start(line: Seq<char>) -> int {
    match find_char_from(line, '>', 0) {
        Some(k) => k + 1,
        None => 0,
    }
}

/// Where the text of a leaf line ends: at the last `<` not before its
/// start, or at the end of the line.
pub open spec fn leaf_end(line: Seq<char>) -> int {
    match rfind_char_in(line, '<', leaf_start(line), line.len() as int) {
        Some(k) => k,
        None => line.len() as int,
    }
}

/// The text of a leaf line: what stands between its first `>` and its last `<`.
pub open spec fn leaf_text(line: Seq<char>) -> Seq<char> {
    line.subrange(leaf_start(line), leaf_end(line))
}

/// An ASCII decimal digit.
pub open spec fn is_digit(c: char) -> bool {
    '0' <= c && c <= '9'
}

pub open spec fn digit_value(c: char) -> int {
    c as int - '0' as int
}

pub open spec fn all_digits(s: Seq<char>) -> bool {
    forall|k: int| 0 <= k < s.len() ==> is_digit(#[trigger] s[k])
}

/// The number that a run of decimal digits denotes.
pub open spec fn digits_value(s: Seq<char>) -> int
    decreases s.len(),
{
    if s.len() == 0 {
        0
    } else {
        10 * digits_value(s.drop_last()) + digit_value(s.last())
    }
}

/// What `str::parse::<i32>` accepts: an optional sign, then one or more
/// decimal digits, denoting a value in range.
pub open spec fn parse_i32(s: Seq<char>) -> Option<i32> {
    let signed = s.len() > 0 && (s[0] == '+' || s[0] == '-');
    let digits = if signed { s.drop_first() } else { s };
    let magnitude = digits_value(digits);
    let value = if signed && s[0] == '-' { -magnitude } else { magnitude };
    if digits.len() == 0 || !all_digits(digits) || value < i32::MIN || value > i32::MAX {
        None
    } else {
        Some(value as i32)
    }
}

/// `parse_i32`, with `dflt` where the text is not a number.
pub open spec fn i32_or(s: Seq<char>, dflt: i32) -> i32 {
    match parse_i32(s) {
        Some(v) => v,
        None => dflt,
    }
}

pub open spec fn digit_char(d: nat) -> char {
    (d + '0' as nat) as char
}

/// The shortest decimal digits of `n`.
pub open spec fn nat_digits(n: nat) -> Seq<char>
    decreases n,
{
    if n < 10 {
        seq![digit_char(n)]
    } else {
        nat_digits(n / 10).push(digit_char(n % 10))
    }
}

/// The decimal text of `n`, as `Display` writes an `i32`.
pub open spec fn i32_text(n: i32) -> Seq<char> {
    if n < 0 {
        seq!['-'] + nat_digits((-n) as nat)
    } else {
        nat_digits(n as nat)
    }
}

/// The text of a boolean, as `Display` writes it.
pub open spec fn bool_text(b: bool) -> Seq<char> {
    if b {
        "true"@
    } else {
        "false"@
    }
}

// ---------------------------------------------------------------------------
// Executable helpers
// ---------------------------------------------------------------------------

/// Relies on `String::push`: appends one character.
#[verifier::external_body]
pub(crate) fn push_char(s: &mut String, c: char)
    ensures
        final(s)@ == old(s)@.push(c),
{
    s.push(c);
}

/// The characters of `s`, in order.
pub fn chars_of(s: &str) -> (r: Vec<char>)
    ensures
        r@ == s@,
{
    let n = s.unicode_len();
    let mut it = s.chars();
    let mut r: Vec<char> = Vec::new();
    loop
        invariant
            n == s@.len(),
            r@ + it.remaining() == s@,
        ensures
            r@ == s@,
        decreases n - r@.len(),
    {
        match it.next() {
            Some(c) => {
                r.push(c);
            },
            None => {
                assert(r@ + it.remaining() =~= r@);
                break;
            },
        }
    }
    r
}

/// `char::is_whitespace`.
pub fn is_whitespace(c: char) -> (r: bool)
    ensures
        r == is_ws(c),
{
    c == '\t' || c == '\n' || c == '\x0B' || c == '\x0C' || c == '\r' || c == ' '
        || c == '\u{85}' || c == '\u{A0}' || c == '\u{1680}'
        || ('\u{2000}' <= c && c <= '\u{200A}') || c == '\u{2028}' || c == '\u{2029}'
        || c == '\u{202F}' || c == '\u{205F}' || c == '\u{3000}'
}

/// The viewed contents of a list of lines.
pub open spec fn view_lines(v: Seq<Vec<char>>) -> Seq<Seq<char>> {
    v.map_values(|l: Vec<char>| l@)
}

pub proof fn lemma_split_lf_len(s: Seq<char>)
    ensures
        split_lf(s).len() >= 1,
    decreases s.len(),
{
    if s.len() > 0 {
        lemma_split_lf_len(s.drop_last());
    }
}

/// Splits `text` into lines as `str::lines` does.
pub fn split_lines(text: &Vec<char>) -> (r: Vec<Vec<char>>)
    ensures
        view_lines(r@) == lines_of(text@),
{
    let mut out: Vec<Vec<char>> = Vec::new();
    let mut cur: Vec<char> = Vec::new();
    let mut i: usize = 0;
    proof {
        assert(text@.take(0) =~= Seq::<char>::empty());
    }
    while i < text.len()
        invariant
            i <= text.len(),
            view_lines(out@) == split_lf(text@.take(i as int)).drop_last().map_values(
                |l: Seq<char>| strip_cr(l),
            ),
            cur@ == split_lf(text@.take(i as int)).last(),
        decreases text.len() - i,
    {
        let c = text[i];
        let ghost before = split_lf(text@.take(i as int));
        proof {
            lemma_split_lf_len(text@.take(i as int));
            assert(text@.take(i + 1).drop_last() =~= text@.take(i as int));
            assert(text@.take(i + 1).last() == c);
        }
        if c == '\n' {
            let mut done = cur;
            let n = done.len();
            if n > 0 && done[n - 1] == '\r' {
                done.pop();
            }
            assert(done@ == strip_cr(before.last()));
            let ghost old_out = out@;
            out.push(done);
            proof {
                assert(view_lines(out@) =~= view_lines(old_out).push(strip_cr(before.last())));
                assert(before.map_values(|l: Seq<char>| strip_cr(l)) =~= before.drop_last().map_values(
                    |l: Seq<char>| strip_cr(l),
                ).push(strip_cr(before.last())));
            }
            cur = Vec::new();
            proof {
                let after = split_lf(text@.take(i + 1));
                assert(after == before.push(Seq::empty()));
                assert(after.drop_last() =~= before);
                assert(before =~= before.drop_last().push(before.last()));
                assert(view_lines(out@) =~= after.drop_last().map_values(
                    |l: Seq<char>| strip_cr(l),
                ));
                assert(cur@ =~= after.last());
            }
        } else {
            cur.push(c);
            proof {
                let after = split_lf(text@.take(i + 1));
                assert(after == before.update(before.len() - 1, before.last().push(c)));
                assert(after.drop_last() =~= before.drop_last());
            }
        }
        i = i + 1;
    }
    proof {
        assert(text@.take(text@.len() as int) =~= text@);
        lemma_split_lf_len(text@);
    }
    if cur.len() > 0 {
        out.push(cur);
        proof {
            let p = split_lf(text@);
            assert(view_lines(out@) =~= p.drop_last().map_values(|l: Seq<char>| strip_cr(l)).push(
                p.last(),
            ));
        }
    }
    out
}

/// `line` with whitespace removed at both ends.
pub fn trim_line(line: &Vec<char>) -> (r: Vec<char>)
    ensures
        r@ == trim(line@),
{
    let ghost s = line@;
    let n = line.len();
    let mut lo: usize = 0;
    assert(s.subrange(0, n as int) =~= s);
    while lo < n && is_whitespace(line[lo])
        invariant
            lo <= n,
            n == s.len(),
            s == line@,
            trim_start(s) == trim_start(s.subrange(lo as int, n as int)),
        decreases n - lo,
    {
        proof {
            let t = s.subrange(lo as int, n as int);
            assert(t.drop_first() =~= s.subrange(lo + 1, n as int));
        }
        lo = lo + 1;
    }
    let ghost t = s.subrange(lo as int, n as int);
    assert(trim_start(s) == t);
    let mut hi: usize = n;
    while hi > lo && is_whitespace(line[hi - 1])
        invariant
            lo <= hi <= n,
            n == s.len(),
            s == line@,
            t == s.subrange(lo as int, n as int),
            trim_end(t) == trim_end(s.subrange(lo as int, hi as int)),
        decreases hi,
    {
        proof {
            let u = s.subrange(lo as int, hi as int);
            assert(u.drop_last() =~= s.subrange(lo as int, hi - 1));
        }
        hi = hi - 1;
    }
    slice_chars(line, lo, hi)
}

/// The characters of `v` in `[lo, hi)`, as a new vector.
pub fn slice_chars(v: &Vec<char>, lo: usize, hi: usize) -> (r: Vec<char>)
    requires
        lo <= hi <= v.len(),
    ensures
        r@ == v@.subrange(lo as int, hi as int),
{
    let mut r: Vec<char> = Vec::new();
    let mut k: usize = lo;
    while k < hi
        invariant
            lo <= k <= hi <= v.len(),
            r@ == v@.subrange(lo as int, k as int),
        decreases hi - k,
    {
        r.push(v[k]);
        k = k + 1;
        assert(r@ =~= v@.subrange(lo as int, k as int));
    }
    r
}

/// The characters of `v` in `[lo, hi)`, as a string.
pub fn string_of(v: &Vec<char>, lo: usize, hi: usize) -> (r: String)
    requires
        lo <= hi <= v.len(),
    ensures
        r@ == v@.subrange(lo as int, hi as int),
{
    let mut r = String::new();
    let mut k: usize = lo;
    while k < hi
        invariant
            lo <= k <= hi <= v.len(),
            r@ == v@.subrange(lo as int, k as int),
        decreases hi - k,
    {
        push_char(&mut r, v[k]);
        k = k + 1;
        assert(r@ =~= v@.subrange(lo as int, k as int));
    }
    r
}

/// Whether `line` begins with the characters of `p`.
pub fn starts_with_str(line: &Vec<char>, p: &str) -> (r: bool)
    ensures
        r == starts_with(line@, p@),
{
    let n = p.unicode_len();
    if n > line.len() {
        return false;
    }
    let mut k: usize = 0;
    while k < n
        invariant
            n == p@.len(),
            n <= line.len(),
            k <= n,
            forall|j: int| 0 <= j < k ==> line@[j] == p@[j],
        decreases n - k,
    {
        if line[k] != p.get_char(k) {
            return false;
        }
        k = k + 1;
    }
    true
}

/// The bounds of the text of a leaf line (see `leaf_text`).
pub fn leaf_bounds(line: &Vec<char>) -> (r: (usize, usize))
    ensures
        r.0 == leaf_start(line@),
        r.1 == leaf_end(line@),
        r.0 <= r.1 <= line.len(),
{
    let ghost s = line@;
    let n = line.len();
    let mut k: usize = 0;
    while k < n && line[k] != '>'
        invariant
            k <= n,
            n == s.len(),
            s == line@,
            find_char_from(s, '>', 0) == find_char_from(s, '>', k as int),
        decreases n - k,
    {
        k = k + 1;
    }
    let start: usize = if k < n {
        k + 1
    } else {
        0
    };
    let mut hi: usize = n;
    while hi > start && line[hi - 1] != '<'
        invariant
            start <= hi <= n,
            n == s.len(),
            s == line@,
            start == leaf_start(s),
            rfind_char_in(s, '<', start as int, n as int) == rfind_char_in(
                s,
                '<',
                start as int,
                hi as int,
            ),
        decreases hi,
    {
        hi = hi - 1;
    }
    let end: usize = if hi > start {
        hi - 1
    } else {
        n
    };
    (start, end)
}

/// Whether the characters of `v` in `[lo, hi)` spell `p`.
pub fn slice_equals(v: &Vec<char>, lo: usize, hi: usize, p: &str) -> (r: bool)
    requires
        lo <= hi <= v.len(),
    ensures
        r == (v@.subrange(lo as int, hi as int) == p@),
{
    let n = p.unicode_len();
    if hi - lo != n {
        return false;
    }
    let mut k: usize = 0;
    while k < n
        invariant
            n == p@.len(),
            lo + n == hi <= v.len(),
            k <= n,
            forall|j: int| 0 <= j < k ==> v@[lo + j] == p@[j],
        decreases n - k,
    {
        if v[lo + k] != p.get_char(k) {
            assert(v@.subrange(lo as int, hi as int)[k as int] != p@[k as int]);
            return false;
        }
        k = k + 1;
    }
    assert(v@.subrange(lo as int, hi as int) =~= p@);
    true
}

proof fn lemma_digits_value_nonneg(d: Seq<char>)
    requires
        all_digits(d),
    ensures
        digits_value(d) >= 0,
    decreases d.len(),
{
    if d.len() > 0 {
        assert(all_digits(d.drop_last()));
        lemma_digits_value_nonneg(d.drop_last());
    }
}

/// A run of digits denotes no less than any of its prefixes.
proof fn lemma_digits_value_prefix(d: Seq<char>, k: int)
    requires
        all_digits(d),
        0 <= k <= d.len(),
    ensures
        digits_value(d) >= digits_value(d.take(k)),
    decreases d.len(),
{
    if k == d.len() {
        assert(d.take(k) =~= d);
    } else {
        assert(all_digits(d.drop_last()));
        lemma_digits_value_prefix(d.drop_last(), k);
        assert(d.drop_last().take(k) =~= d.take(k));
        lemma_digits_value_nonneg(d.drop_last());
    }
}

/// Reads the characters of `v` in `[lo, hi)` as an `i32`, as
/// `str::parse::<i32>` does.
pub fn parse_i32_in(v: &Vec<char>, lo: usize, hi: usize) -> (r: Option<i32>)
    requires
        lo <= hi <= v.len(),
    ensures
        r == parse_i32(v@.subrange(lo as int, hi as int)),
{
    let ghost s = v@.subrange(lo as int, hi as int);
    let signed = lo < hi && (v[lo] == '+' || v[lo] == '-');
    let negative = signed && v[lo] == '-';
    let first: usize = if signed {
        lo + 1
    } else {
        lo
    };
    let ghost digits = v@.subrange(first as int, hi as int);
    proof {
        if lo < hi {
            assert(s[0] == v@[lo as int]);
        }
        assert(signed == (s.len() > 0 && (s[0] == '+' || s[0] == '-')));
        assert(negative == (signed && s[0] == '-'));
        if signed {
            assert(s.drop_first() =~= digits);
        } else {
            assert(s =~= digits);
        }
    }
    if first == hi {
        return None;
    }
    let mut acc: i64 = 0;
    let mut k: usize = first;
    proof {
        assert(digits.take(0) =~= Seq::<char>::empty());
    }
    while k < hi
        invariant
            lo <= first <= k <= hi <= v.len(),
            digits == v@.subrange(first as int, hi as int),
            s == v@.subrange(lo as int, hi as int),
            signed == (s.len() > 0 && (s[0] == '+' || s[0] == '-')),
            negative == (signed && s[0] == '-'),
            digits == if signed { s.drop_first() } else { s },
            acc == digits_value(digits.take(k - first)),
            all_digits(digits.take(k - first)),
            0 <= acc <= 2147483648,
        decreases hi - k,
    {
        let c = v[k];
        let ghost j = k - first;
        if !('0' <= c && c <= '9') {
            assert(!is_digit(digits[j]));
            return None;
        }
        proof {
            assert(digits.take(j + 1).drop_last() =~= digits.take(j));
            assert(digits.take(j + 1).last() == c);
            assert(all_digits(digits.take(j + 1)));
        }
        acc = acc * 10 + (c as i64 - '0' as i64);
        k = k + 1;
        if acc > 2147483648 {
            proof {
                if all_digits(digits) {
                    lemma_digits_value_prefix(digits, j + 1);
                }
            }
            return None;
        }
    }
    proof {
        assert(digits.take(hi - first) =~= digits);
    }
    let value: i64 = if negative {
        -acc
    } else {
        acc
    };
    if value < -2147483648 || value > 2147483647 {
        None
    } else {
        Some(value as i32)
    }
}

/// The character of a decimal digit.
fn digit_to_char(d: u32) -> (c: char)
    requires
        d < 10,
    ensures
        c == digit_char(d as nat),
{
    if d == 0 { '0' }
    else if d == 1 { '1' }
    else if d == 2 { '2' }
    else if d == 3 { '3' }
    else if d == 4 { '4' }
    else if d == 5 { '5' }
    else if d == 6 { '6' }
    else if d == 7 { '7' }
    else if d == 8 { '8' }
    else { '9' }
}

/// Appends the decimal digits of `n`.
fn push_digits(out: &mut String, n: u32)
    ensures
        final(out)@ == old(out)@ + nat_digits(n as nat),
    decreases n,
{
    if n >= 10 {
        push_digits(out, n / 10);
    }
    push_char(out, digit_to_char(n % 10));
    proof {
        if n >= 10 {
            let last = seq![digit_char((n % 10) as nat)];
            assert(old(out)@ + nat_digits(n as nat) =~= old(out)@ + nat_digits((n / 10) as nat)
                + last);
        } else {
            assert(old(out)@ + nat_digits(n as nat) =~= old(out)@.push(digit_char(n as nat)));
        }
    }
}

/// Appends the decimal text of `n`.
pub fn push_i32(out: &mut String, n: i32)
    ensures
        final(out)@ == old(out)@ + i32_text(n),
{
    if n < 0 {
        push_char(out, '-');
        let m: u32 = (-(n as i64)) as u32;
        push_digits(out, m);
        assert(final(out)@ =~= old(out)@ + i32_text(n));
    } else {
        push_digits(out, n as u32);
    }
}

/// Appends the text of `b`.
pub fn push_bool(out: &mut String, b: bool)
    ensures
        final(out)@ == old(out)@ + bool_text(b),
{
    if b {
        out.append("true");
    } else {
        out.append("false");
    }
}

/// The first position at or after `i` that holds `c`.
pub fn find_char(v: &Vec<char>, c: char, i: usize) -> (r: Option<usize>)
    ensures
        match r {
            Some(k) => find_char_from(v@, c, i as int) == Some(k as int),
            None => find_char_from(v@, c, i as int) is None,
        },
{
    let mut k: usize = i;
    while k < v.len()
        invariant
            i <= k,
            find_char_from(v@, c, i as int) == find_char_from(v@, c, k as int),
        decreases v.len() - k,
    {
        if v[k] == c {
            return Some(k);
        }
        k = k + 1;
    }
    None
}

/// Whether `p` occurs in `v` at position `k`.
fn occurs_in_at(v: &Vec<char>, p: &Vec<char>, k: usize) -> (r: bool)
    requires
        k + p.len() <= v.len(),
    ensures
        r == occurs_at(v@, p@, k as int),
{
    let mut j: usize = 0;
    while j < p.len()
        invariant
            k + p.len() <= v.len(),
            j <= p.len(),
            forall|m: int| 0 <= m < j ==> v@[k + m] == p@[m],
        decreases p.len() - j,
    {
        if v[k + j] != p[j] {
            assert(v@.subrange(k as int, k + p.len())[j as int] != p@[j as int]);
            return false;
        }
        j = j + 1;
    }
    assert(v@.subrange(k as int, k + p.len()) =~= p@);
    true
}

/// The first position at or after `i` where `p` occurs in `v`.
pub fn find_str(v: &Vec<char>, p: &str, i: usize) -> (r: Option<usize>)
    ensures
        match r {
            Some(k) => find_from(v@, p@, i as int) == Some(k as int),
            None => find_from(v@, p@, i as int) is None,
        },
{
    let pat = chars_of(p);
    let mut k: usize = i;
    while k <= v.len() && pat.len() <= v.len() - k
        invariant
            i <= k,
            pat@ == p@,
            find_from(v@, p@, i as int) == find_from(v@, p@, k as int),
        decreases v.len() + 1 - k,
    {
        if occurs_in_at(v, &pat, k) {
            return Some(k);
        }
        if k == v.len() {
            assert(v@.subrange(k as int, k as int) =~= p@);
            return None;
        }
        k = k + 1;
    }
    None
}

pub proof fn lemma_find_from_bounds(s: Seq<char>, p: Seq<char>, i: int)
    ensures
        find_from(s, p, i) matches Some(k) ==> i <= k && occurs_at(s, p, k),
    decreases s.len() + 1 - i,
{
    if !(i < 0 || i > s.len() - p.len()) && !occurs_at(s, p, i) {
        lemma_find_from_bounds(s, p, i + 1);
    }
}

pub proof fn lemma_find_char_from_bounds(s: Seq<char>, c: char, i: int)
    ensures
        find_char_from(s, c, i) matches Some(k) ==> i <= k < s.len() && s[k] == c,
    decreases s.len() - i,
{
    if 0 <= i < s.len() && s[i] != c {
        lemma_find_char_from_bounds(s, c, i + 1);
    }
}

} // verus!
