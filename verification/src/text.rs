//! Character-level text helpers shared by the taste modules.
//!
//! Strings are modelled by their `Seq<char>` view. Everything here that can
//! be stated in a few lines (ASCII case folding, ASCII alphanumerics, infix
//! search, decimal rendering, trimming) is implemented and proved; the two
//! facts that need Unicode tables (white space and full lower-casing) come
//! from std through small trusted wrappers.
use vstd::prelude::*;

verus! {

// ---------------------------------------------------------------------------
// ASCII character classes
// ---------------------------------------------------------------------------

/// `char::is_ascii_uppercase`.
pub open spec fn is_ascii_upper(c: char) -> bool {
    'A' <= c && c <= 'Z'
}

/// `char::is_ascii_alphanumeric`.
pub open spec fn is_ascii_alnum(c: char) -> bool {
    ('0' <= c && c <= '9') || ('a' <= c && c <= 'z') || ('A' <= c && c <= 'Z')
}

/// `char::is_ascii_alphabetic`.
pub open spec fn is_ascii_alpha(c: char) -> bool {
    ('a' <= c && c <= 'z') || ('A' <= c && c <= 'Z')
}

/// `char::to_ascii_lowercase`.
pub open spec fn lower_char(c: char) -> char {
    if is_ascii_upper(c) {
        ((c as u32) + 32) as char
    } else {
        c
    }
}

/// `str::to_ascii_lowercase`, character by character.
pub open spec fn ascii_lower(s: Seq<char>) -> Seq<char> {
    s.map_values(|c: char| lower_char(c))
}

/// The ASCII letters and digits of `s`, in order.
pub open spec fn alnum_only(s: Seq<char>) -> Seq<char>
    decreases s.len(),
{
    if s.len() == 0 {
        Seq::empty()
    } else {
        let rest = alnum_only(s.drop_last());
        if is_ascii_alnum(s.last()) {
            rest.push(s.last())
        } else {
            rest
        }
    }
}

/// Lower-cased ASCII letters and digits: the "compact" form used to match
/// catalog keywords regardless of spacing and punctuation.
pub open spec fn compact_form(s: Seq<char>) -> Seq<char> {
    alnum_only(ascii_lower(s))
}

/// `str::eq_ignore_ascii_case`.
pub open spec fn eq_ignore_case(a: Seq<char>, b: Seq<char>) -> bool {
    ascii_lower(a) == ascii_lower(b)
}

// ---------------------------------------------------------------------------
// Search
// ---------------------------------------------------------------------------

/// `t` occurs in `s` at position `i`.
pub open spec fn occurs_at(s: Seq<char>, t: Seq<char>, i: int) -> bool {
    0 <= i && i + t.len() <= s.len() && s.subrange(i, i + t.len()) == t
}

/// First position at or after `i` where `t` occurs in `s`, or -1.
pub open spec fn find_from(s: Seq<char>, t: Seq<char>, i: int) -> int
    decreases s.len() + 1 - i,
{
    if i < 0 || i + t.len() > s.len() {
        -1
    } else if s.subrange(i, i + t.len()) == t {
        i
    } else {
        find_from(s, t, i + 1)
    }
}

/// `str::contains` for a string pattern.
pub open spec fn contains(s: Seq<char>, t: Seq<char>) -> bool {
    find_from(s, t, 0) >= 0
}

/// `str::starts_with`.
pub open spec fn has_prefix(s: Seq<char>, t: Seq<char>) -> bool {
    t.len() <= s.len() && s.subrange(0, t.len() as int) == t
}

/// `str::ends_with`.
pub open spec fn has_suffix(s: Seq<char>, t: Seq<char>) -> bool {
    t.len() <= s.len() && s.subrange(s.len() - t.len(), s.len() as int) == t
}

/// The part of `s` before the first occurrence of `sep`, or all of `s`
/// (`s.split(sep).next()`).
pub open spec fn first_segment(s: Seq<char>, sep: Seq<char>) -> Seq<char> {
    let k = find_from(s, sep, 0);
    if k >= 0 {
        s.subrange(0, k)
    } else {
        s
    }
}

// ---------------------------------------------------------------------------
// White space and trimming
// ---------------------------------------------------------------------------

/// The Unicode `White_Space` property (PropList.txt), which std's
/// `char::is_whitespace` reports: tab through carriage return, space, next
/// line, no-break space, ogham space mark, the spaces U+2000 to U+200A, line
/// and paragraph separators, narrow no-break space, medium mathematical
/// space and ideographic space.
pub open spec fn unicode_white_space(c: char) -> bool {
    let u = c as u32;
    (0x9 <= u <= 0xd) || u == 0x20 || u == 0x85 || u == 0xa0 || u == 0x1680 || (0x2000 <= u
        <= 0x200a) || u == 0x2028 || u == 0x2029 || u == 0x202f || u == 0x205f || u == 0x3000
}

/// `s` without its leading white space.
pub open spec fn trim_start(s: Seq<char>) -> Seq<char>
    decreases s.len(),
{
    if s.len() > 0 && unicode_white_space(s[0]) {
        trim_start(s.drop_first())
    } else {
        s
    }
}

/// `s` without its trailing white space.
pub open spec fn trim_end(s: Seq<char>) -> Seq<char>
    decreases s.len(),
{
    if s.len() > 0 && unicode_white_space(s.last()) {
        trim_end(s.drop_last())
    } else {
        s
    }
}

/// `str::trim`: leading and trailing white space removed.
pub open spec fn trim(s: Seq<char>) -> Seq<char> {
    trim_end(trim_start(s))
}

/// std's `str::to_lowercase`: full Unicode lower-casing, which needs the
/// Unicode case tables and is therefore only named here.
pub uninterp spec fn unicode_lowercase(s: Seq<char>) -> Seq<char>;

// ---------------------------------------------------------------------------
// Decimal rendering
// ---------------------------------------------------------------------------

pub open spec fn digit_char(d: nat) -> char
    recommends
        d < 10,
{
    ((d + 48) as u32) as char
}

/// Decimal digits of `n`, most significant first (`"0"` for zero).
pub open spec fn dec_nat(n: nat) -> Seq<char>
    decreases n,
{
    if n < 10 {
        seq![digit_char(n)]
    } else {
        dec_nat(n / 10).push(digit_char(n % 10))
    }
}

/// `format!("{n}")` for an integer.
pub open spec fn dec_int(n: int) -> Seq<char> {
    if n < 0 {
        seq!['-'].add(dec_nat((-n) as nat))
    } else {
        dec_nat(n as nat)
    }
}

/// Lower-case hexadecimal digits of `n`, most significant first.
pub open spec fn hex_nat(n: nat) -> Seq<char>
    decreases n,
{
    if n < 16 {
        seq![hex_char(n)]
    } else {
        hex_nat(n / 16).push(hex_char(n % 16))
    }
}

pub open spec fn hex_char(d: nat) -> char {
    if d < 10 {
        ((d + 48) as u32) as char
    } else {
        ((d + 87) as u32) as char
    }
}

/// `format!("{:016x}", n)`: hexadecimal, left-padded with zeros to 16 digits.
pub open spec fn hex16(n: nat) -> Seq<char> {
    let h = hex_nat(n);
    if h.len() >= 16 {
        h
    } else {
        Seq::new((16 - h.len()) as nat, |i: int| '0') + h
    }
}

// ---------------------------------------------------------------------------
// Trusted std wrappers
// ---------------------------------------------------------------------------

/// std `String::push`: appends one character to the string.
#[verifier::external_body]
pub fn push_char(s: &mut String, c: char)
    ensures
        final(s)@ == old(s)@.push(c),
{
    s.push(c);
}

/// `char::is_whitespace`: the Unicode `White_Space` property.
pub fn is_whitespace(c: char) -> (b: bool)
    ensures
        b == unicode_white_space(c),
{
    let u = c as u32;
    (0x9 <= u && u <= 0xd) || u == 0x20 || u == 0x85 || u == 0xa0 || u == 0x1680 || (0x2000 <= u
        && u <= 0x200a) || u == 0x2028 || u == 0x2029 || u == 0x202f || u == 0x205f || u == 0x3000
}

/// std `str::to_lowercase`, taken over the characters of `v`: the result is
/// the Unicode lower-casing of the text, a function of the text alone.
#[verifier::external_body]
pub fn unicode_lower(v: &Vec<char>) -> (r: Vec<char>)
    ensures
        r@ == unicode_lowercase(v@),
{
    let s: String = v.iter().collect();
    s.to_lowercase().chars().collect()
}

// ---------------------------------------------------------------------------
// Conversions
// ---------------------------------------------------------------------------

/// The characters of a string slice.
pub fn chars_of(s: &str) -> (v: Vec<char>)
    ensures
        v@ == s@,
{
    let mut v: Vec<char> = Vec::new();
    for c in it: s.chars()
        invariant
            v@ == it.seq().take(it.index() as int),
    {
        v.push(c);
    }
    v
}

/// A `String` holding exactly the given characters.
pub fn string_of(v: &Vec<char>) -> (s: String)
    ensures
        s@ == v@,
{
    let mut s = String::new();
    let mut i: usize = 0;
    while i < v.len()
        invariant
            i <= v.len(),
            s@ == v@.take(i as int),
        decreases v.len() - i,
    {
        push_char(&mut s, v[i]);
        i += 1;
        assert(v@.take(i as int) =~= v@.take((i - 1) as int).push(v@[i - 1]));
    }
    assert(v@.take(v.len() as int) =~= v@);
    s
}

/// Appends the characters of `s` to `v`.
pub fn append_str(v: &mut Vec<char>, s: &str)
    ensures
        final(v)@ == old(v)@ + s@,
{
    let extra = chars_of(s);
    append_chars(v, &extra);
}

/// Appends `extra` to `v`.
pub fn append_chars(v: &mut Vec<char>, extra: &Vec<char>)
    ensures
        final(v)@ == old(v)@ + extra@,
{
    let ghost start = v@;
    let mut i: usize = 0;
    while i < extra.len()
        invariant
            i <= extra.len(),
            v@ == start + extra@.take(i as int),
        decreases extra.len() - i,
    {
        v.push(extra[i]);
        i += 1;
        assert(extra@.take(i as int) =~= extra@.take((i - 1) as int).push(extra@[i - 1]));
    }
    assert(extra@.take(extra.len() as int) =~= extra@);
}

/// The concatenation of a string literal and some characters, as a `String`.
pub fn join2(a: &Vec<char>, b: &Vec<char>) -> (s: String)
    ensures
        s@ == a@ + b@,
{
    let mut v = a.clone();
    assert(v@ == a@);
    append_chars(&mut v, b);
    string_of(&v)
}

// ---------------------------------------------------------------------------
// Case folding and filtering
// ---------------------------------------------------------------------------

pub fn lower_ascii_char(c: char) -> (r: char)
    ensures
        r == lower_char(c),
{
    if 'A' <= c && c <= 'Z' {
        let x: u32 = (c as u32) + 32;
        let b: u8 = x as u8;
        b as char
    } else {
        c
    }
}

pub fn is_alnum(c: char) -> (b: bool)
    ensures
        b == is_ascii_alnum(c),
{
    ('0' <= c && c <= '9') || ('a' <= c && c <= 'z') || ('A' <= c && c <= 'Z')
}

pub fn is_alpha(c: char) -> (b: bool)
    ensures
        b == is_ascii_alpha(c),
{
    ('a' <= c && c <= 'z') || ('A' <= c && c <= 'Z')
}

/// `to_ascii_lowercase` on a character vector.
pub fn lower_ascii(v: &Vec<char>) -> (r: Vec<char>)
    ensures
        r@ == ascii_lower(v@),
{
    let mut r: Vec<char> = Vec::new();
    let mut i: usize = 0;
    while i < v.len()
        invariant
            i <= v.len(),
            r@ == ascii_lower(v@.take(i as int)),
        decreases v.len() - i,
    {
        let c = lower_ascii_char(v[i]);
        r.push(c);
        i += 1;
        assert(ascii_lower(v@.take(i as int)) =~= ascii_lower(v@.take((i - 1) as int)).push(c));
    }
    assert(v@.take(v.len() as int) =~= v@);
    r
}

/// Keeps only ASCII letters and digits.
pub fn keep_alnum(v: &Vec<char>) -> (r: Vec<char>)
    ensures
        r@ == alnum_only(v@),
{
    let mut r: Vec<char> = Vec::new();
    let mut i: usize = 0;
    while i < v.len()
        invariant
            i <= v.len(),
            r@ == alnum_only(v@.take(i as int)),
        decreases v.len() - i,
    {
        let c = v[i];
        assert(v@.take((i + 1) as int).drop_last() =~= v@.take(i as int));
        if is_alnum(c) {
            r.push(c);
        }
        i += 1;
    }
    assert(v@.take(v.len() as int) =~= v@);
    r
}

/// The compact form (lower-cased ASCII letters and digits) of a string.
pub fn compact(s: &str) -> (r: Vec<char>)
    ensures
        r@ == compact_form(s@),
{
    let v = chars_of(s);
    let l = lower_ascii(&v);
    keep_alnum(&l)
}

// ---------------------------------------------------------------------------
// Equality and search
// ---------------------------------------------------------------------------

/// Character-sequence equality.
pub fn seq_eq(a: &Vec<char>, b: &Vec<char>) -> (r: bool)
    ensures
        r == (a@ == b@),
{
    if a.len() != b.len() {
        return false;
    }
    let mut i: usize = 0;
    while i < a.len()
        invariant
            i <= a.len(),
            a.len() == b.len(),
            forall|k: int| 0 <= k < i ==> a@[k] == b@[k],
        decreases a.len() - i,
    {
        if a[i] != b[i] {
            return false;
        }
        i += 1;
    }
    assert(a@ =~= b@);
    true
}

/// Whether `v` holds exactly the characters of `lit`.
pub fn eq_str(v: &Vec<char>, lit: &str) -> (r: bool)
    ensures
        r == (v@ == lit@),
{
    let l = chars_of(lit);
    seq_eq(v, &l)
}

/// `eq_ignore_ascii_case` on character vectors.
pub fn eq_ignore_ascii_case(a: &Vec<char>, b: &Vec<char>) -> (r: bool)
    ensures
        r == eq_ignore_case(a@, b@),
{
    let la = lower_ascii(a);
    let lb = lower_ascii(b);
    seq_eq(&la, &lb)
}

/// Whether `t` occurs in `s` at position `i`.
pub fn matches_at(s: &Vec<char>, t: &Vec<char>, i: usize) -> (r: bool)
    requires
        i + t.len() <= s.len(),
    ensures
        r == (s@.subrange(i as int, i + t.len()) == t@),
{
    let mut j: usize = 0;
    while j < t.len()
        invariant
            j <= t.len(),
            i + t.len() <= s.len(),
            forall|k: int| 0 <= k < j ==> s@[i + k] == t@[k],
        decreases t.len() - j,
    {
        if s[i + j] != t[j] {
            assert(s@.subrange(i as int, i + t.len())[j as int] != t@[j as int]);
            return false;
        }
        j += 1;
    }
    assert(s@.subrange(i as int, i + t.len()) =~= t@);
    true
}

/// First position at or after `from` where `t` occurs in `s`.
pub fn find(s: &Vec<char>, t: &Vec<char>, from: usize) -> (r: Option<usize>)
    ensures
        match r {
            Some(k) => find_from(s@, t@, from as int) == k as int,
            None => find_from(s@, t@, from as int) == -1,
        },
{
    if t.len() > s.len() {
        return None;
    }
    let last = s.len() - t.len();
    let mut i = from;
    while i <= last
        invariant
            from <= i,
            last == s.len() - t.len(),
            t.len() <= s.len(),
            find_from(s@, t@, from as int) == find_from(s@, t@, i as int),
        decreases last + 1 - i,
    {
        if matches_at(s, t, i) {
            return Some(i);
        }
        if i == last {
            assert(find_from(s@, t@, i + 1) == -1);
            return None;
        }
        i += 1;
    }
    None
}

/// `str::contains` on character vectors.
pub fn contains_chars(s: &Vec<char>, t: &Vec<char>) -> (r: bool)
    ensures
        r == contains(s@, t@),
{
    find(s, t, 0).is_some()
}

/// Whether the literal `lit` occurs in `s`.
pub fn contains_str(s: &Vec<char>, lit: &str) -> (r: bool)
    ensures
        r == contains(s@, lit@),
{
    let t = chars_of(lit);
    contains_chars(s, &t)
}

/// Whether `s` starts with the literal `lit`.
pub fn starts_with_str(s: &Vec<char>, lit: &str) -> (r: bool)
    ensures
        r == has_prefix(s@, lit@),
{
    let t = chars_of(lit);
    if t.len() > s.len() {
        return false;
    }
    matches_at(s, &t, 0)
}

/// Whether `s` ends with `t`.
pub fn ends_with_chars(s: &Vec<char>, t: &Vec<char>) -> (r: bool)
    ensures
        r == has_suffix(s@, t@),
{
    if t.len() > s.len() {
        return false;
    }
    matches_at(s, t, s.len() - t.len())
}

/// Whether `s` ends with the literal `lit`.
pub fn ends_with_str(s: &Vec<char>, lit: &str) -> (r: bool)
    ensures
        r == has_suffix(s@, lit@),
{
    let t = chars_of(lit);
    ends_with_chars(s, &t)
}

/// The characters `s[from..to]`.
pub fn slice_chars(s: &Vec<char>, from: usize, to: usize) -> (r: Vec<char>)
    requires
        from <= to <= s.len(),
    ensures
        r@ == s@.subrange(from as int, to as int),
{
    let mut r: Vec<char> = Vec::new();
    let mut i = from;
    while i < to
        invariant
            from <= i <= to <= s.len(),
            r@ == s@.subrange(from as int, i as int),
        decreases to - i,
    {
        r.push(s[i]);
        i += 1;
        assert(s@.subrange(from as int, i as int) =~= s@.subrange(from as int, (i - 1) as int).push(
            s@[i - 1],
        ));
    }
    r
}

/// `s.split(sep).next()`: the text before the first `sep`.
pub fn first_segment_of(s: &Vec<char>, sep: &str) -> (r: Vec<char>)
    ensures
        r@ == first_segment(s@, sep@),
{
    let t = chars_of(sep);
    match find(s, &t, 0) {
        Some(k) => {
            proof {
                lemma_find_from_bounds(s@, t@, 0);
            }
            slice_chars(s, 0, k)
        },
        None => s.clone(),
    }
}

pub proof fn lemma_find_from_bounds(s: Seq<char>, t: Seq<char>, i: int)
    ensures
        find_from(s, t, i) == -1 || (i <= find_from(s, t, i) && occurs_at(
            s,
            t,
            find_from(s, t, i),
        )),
    decreases s.len() + 1 - i,
{
    if i < 0 || i + t.len() > s.len() {
    } else if s.subrange(i, i + t.len()) == t {
    } else {
        lemma_find_from_bounds(s, t, i + 1);
    }
}

// ---------------------------------------------------------------------------
// Trimming
// ---------------------------------------------------------------------------

proof fn lemma_trim_start_step(s: Seq<char>, i: int)
    requires
        0 <= i < s.len(),
        unicode_white_space(s[i]),
    ensures
        trim_start(s.subrange(i, s.len() as int)) == trim_start(s.subrange(i + 1, s.len() as int)),
{
    let a = s.subrange(i, s.len() as int);
    assert(a.drop_first() =~= s.subrange(i + 1, s.len() as int));
}

pub proof fn lemma_trim_end_step(s: Seq<char>, j: int)
    requires
        0 < j <= s.len(),
        unicode_white_space(s[j - 1]),
    ensures
        trim_end(s.subrange(0, j)) == trim_end(s.subrange(0, j - 1)),
{
    let a = s.subrange(0, j);
    assert(a.drop_last() =~= s.subrange(0, j - 1));
}

/// `str::trim` on a character vector.
pub fn trim_chars(v: &Vec<char>) -> (r: Vec<char>)
    ensures
        r@ == trim(v@),
{
    let n = v.len();
    let mut a: usize = 0;
    assert(v@.subrange(0, n as int) =~= v@);
    while a < n && is_whitespace(v[a])
        invariant
            a <= n == v.len(),
            trim_start(v@) == trim_start(v@.subrange(a as int, n as int)),
        decreases n - a,
    {
        proof {
            lemma_trim_start_step(v@, a as int);
        }
        a += 1;
    }
    let ghost rest = v@.subrange(a as int, n as int);
    assert(trim_start(v@) == rest);
    let mut b: usize = n;
    assert(rest.subrange(0, (n - a) as int) =~= rest);
    while b > a && is_whitespace(v[b - 1])
        invariant
            a <= b <= n == v.len(),
            rest == v@.subrange(a as int, n as int),
            trim_end(rest) == trim_end(rest.subrange(0, (b - a) as int)),
        decreases b,
    {
        proof {
            lemma_trim_end_step(rest, (b - a) as int);
        }
        b -= 1;
    }
    let r = slice_chars(v, a, b);
    assert(r@ =~= rest.subrange(0, (b - a) as int));
    r
}

/// `str::trim` on a string slice, as characters.
pub fn trimmed(s: &str) -> (r: Vec<char>)
    ensures
        r@ == trim(s@),
{
    let v = chars_of(s);
    trim_chars(&v)
}

// ---------------------------------------------------------------------------
// Decimal and hexadecimal rendering
// ---------------------------------------------------------------------------

proof fn lemma_dec_nat_nonempty(n: nat)
    ensures
        dec_nat(n).len() >= 1,
    decreases n,
{
    if n >= 10 {
        lemma_dec_nat_nonempty(n / 10);
    }
}

/// Decimal digits of an unsigned number.
pub fn dec_u64(n: u64) -> (r: Vec<char>)
    ensures
        r@ == dec_nat(n as nat),
    decreases n,
{
    if n < 10 {
        let d: u8 = (n as u8) + 48;
        let mut r: Vec<char> = Vec::new();
        r.push(d as char);
        assert(r@ =~= seq![digit_char(n as nat)]);
        r
    } else {
        let mut r = dec_u64(n / 10);
        let d: u8 = ((n % 10) as u8) + 48;
        r.push(d as char);
        r
    }
}

/// Decimal rendering of a signed number, with a leading `-` when negative.
pub fn dec_i64(n: i64) -> (r: Vec<char>)
    ensures
        r@ == dec_int(n as int),
{
    if n < 0 {
        let m: i128 = -(n as i128);
        let mag = dec_u64(m as u64);
        let mut r: Vec<char> = Vec::new();
        r.push('-');
        append_chars(&mut r, &mag);
        assert(r@ =~= seq!['-'].add(dec_nat((-(n as int)) as nat)));
        r
    } else {
        dec_u64(n as u64)
    }
}

/// Lower-case hexadecimal digits of a number.
pub fn hex_u64(n: u64) -> (r: Vec<char>)
    ensures
        r@ == hex_nat(n as nat),
    decreases n,
{
    let d = (n % 16) as u8;
    let c: char = if d < 10 {
        (d + 48) as char
    } else {
        (d + 87) as char
    };
    if n < 16 {
        let mut r: Vec<char> = Vec::new();
        r.push(c);
        assert(r@ =~= seq![hex_char(n as nat)]);
        r
    } else {
        let mut r = hex_u64(n / 16);
        r.push(c);
        r
    }
}

/// `format!("{:016x}", n)`.
pub fn hex16_u64(n: u64) -> (r: Vec<char>)
    ensures
        r@ == hex16(n as nat),
{
    let h = hex_u64(n);
    if h.len() >= 16 {
        return h;
    }
    let pad = 16 - h.len();
    let mut r: Vec<char> = Vec::new();
    let mut i: usize = 0;
    while i < pad
        invariant
            i <= pad,
            pad == 16 - h.len(),
            r@ == Seq::new(i as nat, |k: int| '0'),
        decreases pad - i,
    {
        r.push('0');
        i += 1;
        assert(r@ =~= Seq::new(i as nat, |k: int| '0'));
    }
    append_chars(&mut r, &h);
    r
}


// ---------------------------------------------------------------------------
// Decimal parsing
// ---------------------------------------------------------------------------

pub open spec fn is_digit(c: char) -> bool {
    '0' <= c && c <= '9'
}

pub open spec fn all_digits(s: Seq<char>) -> bool {
    forall|i: int| 0 <= i < s.len() ==> #[trigger] is_digit(s[i])
}

/// The number a run of decimal digits spells.
pub open spec fn digits_value(s: Seq<char>) -> int
    decreases s.len(),
{
    if s.len() == 0 {
        0
    } else {
        10 * digits_value(s.drop_last()) + (s.last() as int - 48)
    }
}

/// `str::parse::<i64>`: an optional `+` or `-` and at least one decimal
/// digit, nothing else, and a value in range.
pub open spec fn parse_i64_spec(s: Seq<char>) -> Option<i64> {
    let neg = s.len() > 0 && s[0] == '-';
    let body = if s.len() > 0 && (s[0] == '-' || s[0] == '+') {
        s.skip(1)
    } else {
        s
    };
    let v = if neg {
        -digits_value(body)
    } else {
        digits_value(body)
    };
    if body.len() == 0 || !all_digits(body) || v < i64::MIN || v > i64::MAX {
        None
    } else {
        Some(v as i64)
    }
}

proof fn lemma_digits_prefix_le(s: Seq<char>, k: int)
    requires
        all_digits(s),
        0 <= k <= s.len(),
    ensures
        0 <= digits_value(s.take(k)) <= digits_value(s),
    decreases s.len() - k,
{
    if k < s.len() {
        lemma_digits_prefix_le(s, k + 1);
        assert(s.take(k + 1).drop_last() =~= s.take(k));
        assert(is_digit(s[k]));
        assert(s.take(k + 1).last() == s[k]);
    } else {
        assert(s.take(k) =~= s);
        lemma_digits_nonneg(s);
    }
}

proof fn lemma_digits_nonneg(s: Seq<char>)
    requires
        all_digits(s),
    ensures
        digits_value(s) >= 0,
    decreases s.len(),
{
    if s.len() > 0 {
        assert(is_digit(s[s.len() - 1]));
        lemma_digits_nonneg(s.drop_last());
    }
}

/// Parses a decimal `i64` as `str::parse` does.
pub fn parse_i64(s: &Vec<char>) -> (r: Option<i64>)
    ensures
        r == parse_i64_spec(s@),
{
    let n = s.len();
    let neg = n > 0 && s[0] == '-';
    let start: usize = if n > 0 && (s[0] == '-' || s[0] == '+') {
        1
    } else {
        0
    };
    let ghost body = if n > 0 && (s@[0] == '-' || s@[0] == '+') {
        s@.skip(1)
    } else {
        s@
    };
    assert(body =~= s@.skip(start as int));
    if start >= n {
        return None;
    }
    let limit: i128 = 0x8000_0000_0000_0000;
    let mut acc: i128 = 0;
    let mut i: usize = start;
    while i < n
        invariant
            start <= i <= n,
            n == s@.len(),
            body =~= s@.skip(start as int),
            start == (if n > 0 && (s@[0] == '-' || s@[0] == '+') {
                1usize
            } else {
                0usize
            }),
            neg == (n > 0 && s@[0] == '-'),
            body == (if n > 0 && (s@[0] == '-' || s@[0] == '+') {
                s@.skip(1)
            } else {
                s@
            }),
            all_digits(body.take(i - start)),
            acc == digits_value(body.take(i - start)),
            0 <= acc <= limit,
            limit == 0x8000_0000_0000_0000i128,
        decreases n - i,
    {
        let c = s[i];
        if !('0' <= c && c <= '9') {
            assert(body[i - start] == c);
            assert(!is_digit(body[i - start]));
            assert(!all_digits(body));
            return None;
        }
        let ghost k = i - start;
        assert(body.take(k + 1).drop_last() =~= body.take(k));
        assert(body.take(k + 1).last() == c);
        acc = acc * 10 + (c as i128 - 48);
        i += 1;
        assert(all_digits(body.take(i - start))) by {
            assert forall|j: int| 0 <= j < body.take(i - start).len() implies #[trigger] is_digit(
                body.take(i - start)[j],
            ) by {
                if j < k {
                    assert(body.take(k)[j] == body.take(i - start)[j]);
                }
            }
        }
        if acc > limit {
            proof {
                if all_digits(body) {
                    lemma_digits_prefix_le(body, (i - start) as int);
                    assert(digits_value(body) > limit);
                }
                assert(body.len() > 0);
                let v = if neg {
                    -digits_value(body)
                } else {
                    digits_value(body)
                };
                assert(!all_digits(body) || v < i64::MIN || v > i64::MAX);
            }
            return None;
        }
    }
    assert(body.take(n - start) =~= body);
    if neg {
        Some((-acc) as i64)
    } else if acc <= 0x7fff_ffff_ffff_ffff {
        Some(acc as i64)
    } else {
        None
    }
}

} // verus!
