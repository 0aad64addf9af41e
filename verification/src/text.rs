//! Character-level helpers shared by the parsers: building `String`s from
//! characters, decimal and hexadecimal renderings of numbers, and UTF-8
//! decoding through the standard library.
use vstd::prelude::*;
use vstd::utf8::{decode_utf8, valid_utf8};

verus! {

/// The ASCII digit for `d` (`0 <= d < 16`), upper-case for `10..16`.
pub open spec fn digit_char(d: int) -> char {
    if d < 10 {
        (('0' as int) + d) as char
    } else {
        (('A' as int) + d - 10) as char
    }
}

/// Decimal rendering of `n` without leading zeros (`"0"` for zero).
pub open spec fn decimal_chars(n: nat) -> Seq<char>
    decreases n,
{
    if n < 10 {
        seq![digit_char(n as int)]
    } else {
        decimal_chars(n / 10).push(digit_char((n % 10) as int))
    }
}

/// Two upper-case hexadecimal digits of a byte.
pub open spec fn hex2_chars(b: u8) -> Seq<char> {
    seq![digit_char(b as int / 16), digit_char(b as int % 16)]
}

/// Calls `String::from_iter` on the characters: a `String` holding exactly
/// them, in order.
#[verifier::external_body]
fn string_from_chars(v: Vec<char>) -> (r: String)
    ensures
        r@ == v@,
{
    String::from_iter(v)
}

/// A `String` holding exactly the given characters.
pub(crate) fn chars_to_string(v: &Vec<char>) -> (r: String)
    ensures
        r@ == v@,
{
    let copy = v.clone();
    assert(copy@ =~= v@);
    string_from_chars(copy)
}

/// The characters of a string slice, in order.
pub(crate) fn str_to_chars(s: &str) -> (r: Vec<char>)
    ensures
        r@ == s@,
{
    let mut out: Vec<char> = Vec::new();
    for c in it: s.chars()
        invariant
            out@ == it.seq().take(it.index() as int),
    {
        out.push(c);
        assert(out@ =~= it.seq().take(it.index() as int + 1));
    }
    assert(out@ =~= s@);
    out
}

/// Decodes bytes as UTF-8 through `std::str::from_utf8`: `Some` exactly when
/// the bytes are well-formed UTF-8, holding the decoded characters.
#[verifier::external_body]
pub(crate) fn utf8_str(bytes: &[u8]) -> (r: Option<&str>)
    ensures
        r is Some <==> valid_utf8(bytes@),
        r matches Some(s) ==> s@ == decode_utf8(bytes@),
{
    std::str::from_utf8(bytes).ok()
}

fn digit(d: u8) -> (c: char)
    requires
        d < 16,
    ensures
        c == digit_char(d as int),
{
    match d {
        0 => '0',
        1 => '1',
        2 => '2',
        3 => '3',
        4 => '4',
        5 => '5',
        6 => '6',
        7 => '7',
        8 => '8',
        9 => '9',
        10 => 'A',
        11 => 'B',
        12 => 'C',
        13 => 'D',
        14 => 'E',
        _ => 'F',
    }
}

/// Appends the decimal digits of `n` to `out`.
pub fn push_decimal(n: u64, out: &mut Vec<char>)
    ensures
        final(out)@ == old(out)@ + decimal_chars(n as nat),
    decreases n,
{
    if n >= 10 {
        push_decimal(n / 10, out);
    }
    out.push(digit((n % 10) as u8));
}

/// Appends the two upper-case hexadecimal digits of `b` to `out`.
pub fn push_hex2(b: u8, out: &mut Vec<char>)
    ensures
        final(out)@ == old(out)@ + hex2_chars(b),
{
    out.push(digit(b / 16));
    out.push(digit(b % 16));
}

/// Appends the characters of `s` to `out`.
pub fn push_str(s: &str, out: &mut Vec<char>)
    ensures
        final(out)@ == old(out)@ + s@,
{
    let mut cs = str_to_chars(s);
    out.append(&mut cs);
}


/// Unicode `White_Space`, the property `char::is_whitespace` tests.
pub open spec fn is_white_space(c: char) -> bool {
    let v = c as u32;
    (0x09 <= v <= 0x0D) || v == 0x20 || v == 0x85 || v == 0xA0 || v == 0x1680 || (0x2000 <= v <= 0x200A)
        || v == 0x2028 || v == 0x2029 || v == 0x202F || v == 0x205F || v == 0x3000
}

/// Whether `c` is Unicode white space.
pub fn is_white(c: char) -> (r: bool)
    ensures
        r == is_white_space(c),
{
    let v = c as u32;
    (0x09 <= v && v <= 0x0D) || v == 0x20 || v == 0x85 || v == 0xA0 || v == 0x1680 || (0x2000 <= v
        && v <= 0x200A) || v == 0x2028 || v == 0x2029 || v == 0x202F || v == 0x205F || v == 0x3000
}

/// Whether `c` is alphabetic or numeric in Unicode, as `char::is_alphanumeric` answers.
pub uninterp spec fn is_alphanumeric_char(c: char) -> bool;

/// Calls `char::is_alphanumeric`: Unicode `Alphabetic` or `Numeric`. The
/// answer depends on the character alone; the Unicode tables it reads are
/// not restated here beyond ASCII, where exactly the letters and digits are
/// alphanumeric.
#[verifier::external_body]
pub(crate) fn char_is_alphanumeric(c: char) -> (r: bool)
    ensures
        r == is_alphanumeric_char(c),
        (c as u32) < 128 ==> r == (is_ascii_letter(c) || is_ascii_digit_char(c)),
{
    c.is_alphanumeric()
}

/// Lower-case form of a text, as `str::to_lowercase` computes it.
pub uninterp spec fn lowercase_text(s: Seq<char>) -> Seq<char>;

/// Calls `str::to_lowercase`: Unicode lower-case mapping of each character,
/// with a final capital sigma mapped by its context. The result depends on
/// the text alone; the Unicode tables are not restated here beyond ASCII
/// text, where `A`-`Z` become `a`-`z` and every other character stays.
#[verifier::external_body]
pub(crate) fn lowercase(s: &str) -> (r: String)
    ensures
        r@ == lowercase_text(s@),
        all_ascii(s@) ==> r@ == s@.map_values(|c: char| ascii_lower(c)),
{
    s.to_lowercase()
}

/// Every character of `s` is ASCII.
pub open spec fn all_ascii(s: Seq<char>) -> bool {
    forall|i: int| 0 <= i < s.len() ==> (#[trigger] s[i] as u32) < 128
}

/// The ASCII lower-case form of `c`: `A`-`Z` to `a`-`z`, anything else kept.
pub open spec fn ascii_lower(c: char) -> char {
    if 'A' <= c <= 'Z' { ((c as u32) + 32) as char } else { c }
}

/// An ASCII upper-case letter.
pub open spec fn is_ascii_upper(c: char) -> bool {
    'A' <= c <= 'Z'
}

/// An ASCII digit.
pub open spec fn is_ascii_digit_char(c: char) -> bool {
    '0' <= c <= '9'
}

/// An ASCII letter.
pub open spec fn is_ascii_letter(c: char) -> bool {
    ('A' <= c <= 'Z') || ('a' <= c <= 'z')
}

/// Bytes of `c` in UTF-8.
pub open spec fn utf8_width(c: char) -> int {
    let v = c as u32;
    if v < 0x80 {
        1
    } else if v < 0x800 {
        2
    } else if v < 0x10000 {
        3
    } else {
        4
    }
}

/// Bytes of the text `s` in UTF-8.
pub open spec fn utf8_len(s: Seq<char>) -> int
    decreases s.len(),
{
    if s.len() == 0 {
        0
    } else {
        utf8_len(s.drop_last()) + utf8_width(s.last())
    }
}

proof fn lemma_utf8_len_mono(s: Seq<char>, i: int, j: int)
    requires
        0 <= i <= j <= s.len(),
    ensures
        utf8_len(s.take(i)) <= utf8_len(s.take(j)),
    decreases j - i,
{
    if i < j {
        assert(s.take(j).drop_last() =~= s.take(j - 1));
        lemma_utf8_len_mono(s, i, j - 1);
    }
}

/// Whether the characters of `s` take at most `limit` bytes in UTF-8.
pub fn utf8_len_at_most(s: &Vec<char>, limit: usize) -> (r: bool)
    requires
        limit <= 0xFFFF,
    ensures
        r == (utf8_len(s@) <= limit),
{
    let mut n: usize = 0;
    let mut i: usize = 0;
    while i < s.len()
        invariant
            i <= s@.len(),
            limit <= 0xFFFF,
            n == utf8_len(s@.take(i as int)),
            n <= limit,
        decreases s@.len() - i,
    {
        proof {
            assert(s@.take(i as int + 1).drop_last() =~= s@.take(i as int));
        }
        let v = s[i] as u32;
        let w: usize = if v < 0x80 {
            1
        } else if v < 0x800 {
            2
        } else if v < 0x10000 {
            3
        } else {
            4
        };
        n = n + w;
        i = i + 1;
        if n > limit {
            proof {
                lemma_utf8_len_mono(s@, i as int, s@.len() as int);
                assert(s@.take(s@.len() as int) =~= s@);
            }
            return false;
        }
    }
    proof {
        assert(s@.take(s@.len() as int) =~= s@);
    }
    true
}

/// The characters `s[lo..hi]`.
pub fn sub_chars(s: &Vec<char>, lo: usize, hi: usize) -> (r: Vec<char>)
    requires
        lo <= hi <= s@.len(),
    ensures
        r@ == s@.subrange(lo as int, hi as int),
{
    let mut out: Vec<char> = Vec::new();
    let mut i = lo;
    while i < hi
        invariant
            lo <= i <= hi,
            hi <= s@.len(),
            out@ == s@.subrange(lo as int, i as int),
        decreases hi - i,
    {
        out.push(s[i]);
        i = i + 1;
    }
    out
}

/// Index of the first `c` in `s` at or after `i`, if any.
pub open spec fn find_from(s: Seq<char>, c: char, i: int) -> Option<int>
    decreases s.len() - i,
{
    if i >= s.len() {
        None
    } else if s[i] == c {
        Some(i)
    } else {
        find_from(s, c, i + 1)
    }
}

/// Index of the first `c` in `s`, if any.
pub fn find_char(s: &Vec<char>, c: char) -> (r: Option<usize>)
    ensures
        r matches Some(i) ==> find_from(s@, c, 0) == Some(i as int),
        r is None ==> find_from(s@, c, 0) is None,
{
    let mut i: usize = 0;
    while i < s.len()
        invariant
            i <= s@.len(),
            find_from(s@, c, 0) == find_from(s@, c, i as int),
        decreases s@.len() - i,
    {
        if s[i] == c {
            return Some(i);
        }
        i = i + 1;
    }
    None
}

proof fn lemma_find_from_bound(s: Seq<char>, c: char, i: int)
    requires
        0 <= i,
    ensures
        find_from(s, c, i) matches Some(k) ==> i <= k < s.len() && s[k] == c,
    decreases s.len() - i,
{
    if i < s.len() && s[i] != c {
        lemma_find_from_bound(s, c, i + 1);
    }
}

/// Where `find_from` answers, the character is there.
pub proof fn lemma_find_char(s: Seq<char>, c: char)
    ensures
        find_from(s, c, 0) matches Some(k) ==> 0 <= k < s.len() && s[k] == c,
{
    lemma_find_from_bound(s, c, 0);
}

} // verus!
