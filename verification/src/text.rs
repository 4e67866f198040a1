//! Character classes and conversions between `&str`, `String`, `Vec<char>` and bytes.

use vstd::prelude::*;
use vstd::string::StringExecFns;
use vstd::utf8::{
    decode_utf8, encode_scalar, encode_utf8, is_ascii_chars, is_ascii_chars_encode_utf8,
    valid_utf8,
};

verus! {

broadcast use vstd::string::group_string_axioms;

/// Returns the characters of `s`, in order.
pub fn chars_of(s: &str) -> (v: Vec<char>)
    ensures
        v@ == s@,
{
    let mut v: Vec<char> = Vec::new();
    for c in it: s.chars()
        invariant
            v@ == it.seq().take(it.index() as int),
            it.seq() == s@,
    {
        v.push(c);
    }
    v
}

/// `String::push`: appends one character at the end of the string.
#[verifier::external_body]
fn push_char(s: &mut String, c: char)
    ensures
        final(s)@ == old(s)@.push(c),
{
    s.push(c);
}

/// Builds a `String` holding exactly the characters of `chars`.
pub fn string_from_chars(chars: &Vec<char>) -> (s: String)
    ensures
        s@ == chars@,
{
    let mut s = String::new();
    let mut i: usize = 0;
    while i < chars.len()
        invariant
            i <= chars.len(),
            s@ == chars@.take(i as int),
        decreases chars.len() - i,
    {
        push_char(&mut s, chars[i]);
        i = i + 1;
        assert(chars@.take(i as int) == chars@.take(i - 1).push(chars@[i - 1]));
    }
    assert(chars@.take(chars.len() as int) == chars@);
    s
}

/// Appends the characters of `chars` to `s`.
pub fn push_chars(s: &mut String, chars: &Vec<char>)
    ensures
        final(s)@ == old(s)@ + chars@,
{
    let mut i: usize = 0;
    while i < chars.len()
        invariant
            i <= chars.len(),
            s@ == old(s)@ + chars@.take(i as int),
        decreases chars.len() - i,
    {
        push_char(s, chars[i]);
        i = i + 1;
        assert(chars@.take(i as int) == chars@.take(i - 1).push(chars@[i - 1]));
    }
    assert(chars@.take(chars.len() as int) == chars@);
}

/// Whether two texts hold the same characters.
pub fn same_text(a: &str, b: &str) -> (r: bool)
    ensures
        r == (a@ == b@),
{
    let x = chars_of(a);
    let y = chars_of(b);
    if x.len() != y.len() {
        return false;
    }
    let mut i: usize = 0;
    while i < x.len()
        invariant
            x@ == a@,
            y@ == b@,
            x.len() == y.len(),
            i <= x.len(),
            forall|k: int| 0 <= k < i ==> x@[k] == y@[k],
        decreases x.len() - i,
    {
        if x[i] != y[i] {
            assert(x@[i as int] != y@[i as int]);
            return false;
        }
        i = i + 1;
    }
    assert(x@ =~= y@);
    true
}

/// The UTF-8 bytes of a text.
pub fn utf8_bytes(s: &str) -> (b: Vec<u8>)
    ensures
        b@ == encode_utf8(s@),
{
    vstd::slice::slice_to_vec(s.as_bytes())
}

/// `std::str::from_utf8`: the bytes read as text, where they are valid UTF-8.
/// Claimed: the bytes are accepted exactly when they are valid UTF-8 in the sense of
/// `vstd::utf8::valid_utf8`, and the text is then their decoding.
#[verifier::external_body]
pub fn utf8_text(bytes: &[u8]) -> (r: Option<String>)
    ensures
        r is Some <==> valid_utf8(bytes@),
        r matches Some(s) ==> s@ == decode_utf8(bytes@),
{
    match std::str::from_utf8(bytes) {
        Ok(s) => Some(s.to_string()),
        Err(_) => None,
    }
}

/// What `String::from_utf8_lossy` makes of a byte sequence: the decoding, with each invalid
/// sequence replaced by U+FFFD.
pub uninterp spec fn lossy_text(bytes: Seq<u8>) -> Seq<char>;

/// `String::from_utf8_lossy`, the text that `Path::display` shows for a path's bytes.
/// Claimed: the result is a function of the bytes alone (`lossy_text`), and valid UTF-8
/// is decoded unchanged.
#[verifier::external_body]
pub fn lossy_utf8(bytes: &[u8]) -> (s: String)
    ensures
        s@ == lossy_text(bytes@),
        valid_utf8(bytes@) ==> s@ == decode_utf8(bytes@),
{
    String::from_utf8_lossy(bytes).into_owned()
}

/// Characters with the Unicode `White_Space` property (what `char::is_whitespace` tests).
pub open spec fn is_white_space(c: char) -> bool {
    ||| '\u{9}' <= c <= '\u{d}'
    ||| c == ' '
    ||| c == '\u{85}'
    ||| c == '\u{a0}'
    ||| c == '\u{1680}'
    ||| '\u{2000}' <= c <= '\u{200a}'
    ||| c == '\u{2028}'
    ||| c == '\u{2029}'
    ||| c == '\u{202f}'
    ||| c == '\u{205f}'
    ||| c == '\u{3000}'
}

/// Characters of the Unicode general category `Cc` (what `char::is_control` tests).
pub open spec fn is_control_char(c: char) -> bool {
    ||| c <= '\u{1f}'
    ||| '\u{7f}' <= c <= '\u{9f}'
}

pub open spec fn is_ascii_lower(c: char) -> bool {
    'a' <= c <= 'z'
}

pub open spec fn is_ascii_upper(c: char) -> bool {
    'A' <= c <= 'Z'
}

pub open spec fn is_ascii_digit(c: char) -> bool {
    '0' <= c <= '9'
}

pub open spec fn is_ascii_alnum(c: char) -> bool {
    is_ascii_lower(c) || is_ascii_upper(c) || is_ascii_digit(c)
}

/// Whitespace or a control character: what none of the checked texts may hold.
pub open spec fn is_blank_or_control(c: char) -> bool {
    is_white_space(c) || is_control_char(c)
}

pub fn white_space(c: char) -> (r: bool)
    ensures
        r == is_white_space(c),
{
    ('\u{9}' <= c && c <= '\u{d}') || c == ' ' || c == '\u{85}' || c == '\u{a0}' || c
        == '\u{1680}' || ('\u{2000}' <= c && c <= '\u{200a}') || c == '\u{2028}' || c
        == '\u{2029}' || c == '\u{202f}' || c == '\u{205f}' || c == '\u{3000}'
}

pub fn control_char(c: char) -> (r: bool)
    ensures
        r == is_control_char(c),
{
    c <= '\u{1f}' || ('\u{7f}' <= c && c <= '\u{9f}')
}

pub fn blank_or_control(c: char) -> (r: bool)
    ensures
        r == is_blank_or_control(c),
{
    white_space(c) || control_char(c)
}

pub fn ascii_lower(c: char) -> (r: bool)
    ensures
        r == is_ascii_lower(c),
{
    'a' <= c && c <= 'z'
}

pub fn ascii_digit(c: char) -> (r: bool)
    ensures
        r == is_ascii_digit(c),
{
    '0' <= c && c <= '9'
}

pub fn ascii_alnum(c: char) -> (r: bool)
    ensures
        r == is_ascii_alnum(c),
{
    ascii_lower(c) || ('A' <= c && c <= 'Z') || ascii_digit(c)
}

/// Whether some character of `s` is whitespace or a control character.
pub fn has_blank_or_control(s: &Vec<char>) -> (r: bool)
    ensures
        r == exists|i: int| 0 <= i < s@.len() && is_blank_or_control(#[trigger] s@[i]),
{
    let mut i: usize = 0;
    while i < s.len()
        invariant
            i <= s.len(),
            forall|k: int| 0 <= k < i ==> !is_blank_or_control(#[trigger] s@[k]),
        decreases s.len() - i,
    {
        if blank_or_control(s[i]) {
            return true;
        }
        i = i + 1;
    }
    false
}

/// Whether `s` holds `c`.
pub fn has_char(s: &Vec<char>, c: char) -> (r: bool)
    ensures
        r == s@.contains(c),
{
    let mut i: usize = 0;
    while i < s.len()
        invariant
            i <= s.len(),
            forall|k: int| 0 <= k < i ==> s@[k] != c,
        decreases s.len() - i,
    {
        if s[i] == c {
            assert(s@[i as int] == c);
            return true;
        }
        i = i + 1;
    }
    false
}

/// `needle` occurs in `s` starting at index `i`.
pub open spec fn occurs_at(s: Seq<char>, needle: Seq<char>, i: int) -> bool {
    0 <= i && i + needle.len() <= s.len() && s.subrange(i, i + needle.len()) == needle
}

/// `needle` occurs somewhere in `s` (what `str::contains` tests).
pub open spec fn contains_text(s: Seq<char>, needle: Seq<char>) -> bool {
    exists|i: int| occurs_at(s, needle, i)
}

/// Whether `needle` occurs at index `i` of `s`.
pub fn occurs_at_index(s: &Vec<char>, needle: &Vec<char>, i: usize) -> (r: bool)
    ensures
        r == occurs_at(s@, needle@, i as int),
{
    if i > s.len() || needle.len() > s.len() - i {
        return false;
    }
    let mut k: usize = 0;
    while k < needle.len()
        invariant
            i + needle.len() <= s.len(),
            k <= needle.len(),
            forall|j: int| 0 <= j < k ==> s@[i + j] == needle@[j],
        decreases needle.len() - k,
    {
        if s[i + k] != needle[k] {
            assert(s@.subrange(i as int, i + needle.len())[k as int] != needle@[k as int]);
            return false;
        }
        k = k + 1;
    }
    assert(s@.subrange(i as int, i + needle.len()) =~= needle@);
    true
}

/// Whether `needle` occurs somewhere in `s`.
pub fn contains_chars(s: &Vec<char>, needle: &Vec<char>) -> (r: bool)
    ensures
        r == contains_text(s@, needle@),
{
    if needle.len() == 0 {
        assert(s@.subrange(0, 0) =~= needle@);
        assert(occurs_at(s@, needle@, 0));
        return true;
    }
    let mut i: usize = 0;
    while i < s.len()
        invariant
            i <= s.len(),
            forall|j: int| 0 <= j < i ==> !occurs_at(s@, needle@, j),
        decreases s.len() - i,
    {
        if occurs_at_index(s, needle, i) {
            return true;
        }
        i = i + 1;
    }
    assert forall|j: int| !occurs_at(s@, needle@, j) by {
        if 0 <= j && j + needle@.len() <= s@.len() {
            assert(j < i);
        }
    }
    false
}

/// Encoding a concatenation encodes each part.
pub proof fn lemma_encode_concat(a: Seq<char>, b: Seq<char>)
    ensures
        encode_utf8(a + b) == encode_utf8(a) + encode_utf8(b),
    decreases a.len(),
{
    if a.len() == 0 {
        assert(a + b =~= b);
        assert(encode_utf8(a) + encode_utf8(b) =~= encode_utf8(b));
    } else {
        lemma_encode_concat(a.drop_first(), b);
        assert((a + b).drop_first() =~= a.drop_first() + b);
        assert((a + b)[0] == a[0]);
        assert(encode_utf8(a + b) =~= encode_scalar(a[0] as u32) + encode_utf8(a.drop_first() + b));
        assert(encode_utf8(a) =~= encode_scalar(a[0] as u32) + encode_utf8(a.drop_first()));
    }
}

/// Every character is at least U+0000.
proof fn lemma_char_nonneg(c: char)
    ensures
        '\0' <= c,
{
}

/// An ASCII character's byte has the character's value.
pub proof fn lemma_ascii_char_byte(c: char)
    requires
        c <= '\u{7f}',
    ensures
        (c as u8) as int == c as int,
{
    let v = c as u32;
    assert(v <= 0x7f);
    assert(v as u8 == v) by (bit_vector)
        requires
            v <= 0x7f,
    ;
    assert(c as u8 == v as u8);
}

/// The encoding of a character beyond ASCII starts with a byte of 0x80 or more.
proof fn lemma_scalar_high_byte(c: char)
    requires
        c > '\u{7f}',
    ensures
        encode_scalar(c as u32).len() > 0,
        encode_scalar(c as u32)[0] >= 0x80,
{
    let v = c as u32;
    assert(v > 0x7f);
    assert(0xC0u8 | ((v >> 6) & 0x1F) as u8 >= 0x80) by (bit_vector);
    assert(0xE0u8 | ((v >> 12) & 0x0F) as u8 >= 0x80) by (bit_vector);
    assert(0xF0u8 | ((v >> 18) & 0x7) as u8 >= 0x80) by (bit_vector);
}

/// A text with a character beyond ASCII has a byte of 0x80 or more in its encoding.
pub proof fn lemma_non_ascii_byte(s: Seq<char>)
    requires
        !is_ascii_chars(s),
    ensures
        exists|j: int| 0 <= j < encode_utf8(s).len() && #[trigger] encode_utf8(s)[j] >= 0x80,
    decreases s.len(),
{
    assert(exists|k: int| 0 <= k < s.len() && !('\0' <= #[trigger] s[k] <= '\u{7f}'));
    let k = choose|k: int| 0 <= k < s.len() && !('\0' <= #[trigger] s[k] <= '\u{7f}');
    let head = encode_scalar(s[0] as u32);
    assert(encode_utf8(s) == head + encode_utf8(s.drop_first()));
    if k == 0 {
        lemma_char_nonneg(s[0]);
        assert(s[0] > '\u{7f}');
        lemma_scalar_high_byte(s[0]);
        assert(encode_utf8(s)[0] >= 0x80);
    } else {
        assert(s.drop_first()[k - 1] == s[k]);
        assert(!is_ascii_chars(s.drop_first()));
        lemma_non_ascii_byte(s.drop_first());
        let j = choose|j: int|
            0 <= j < encode_utf8(s.drop_first()).len() && #[trigger] encode_utf8(s.drop_first())[j]
                >= 0x80;
        assert(encode_utf8(s)[head.len() + j] == encode_utf8(s.drop_first())[j]);
    }
}

/// Bytes that are letters or digits of ASCII.
pub open spec fn is_ascii_alnum_byte(b: u8) -> bool {
    (0x30 <= b <= 0x39) || (0x41 <= b <= 0x5a) || (0x61 <= b <= 0x7a)
}

/// Where every byte class member is ASCII and a character belongs to the character class
/// exactly when it is ASCII and its byte belongs to the byte class, every byte of the
/// encoding is in the byte class exactly when every character is in the character class;
/// the encoding then has one byte per character.
pub proof fn lemma_bytes_in_class(s: Seq<char>, chars: spec_fn(char) -> bool, bytes: spec_fn(u8) -> bool)
    requires
        forall|b: u8| #[trigger] bytes(b) ==> b < 0x80,
        forall|c: char| #[trigger] chars(c) <==> (c <= '\u{7f}' && bytes(c as u8)),
    ensures
        (forall|j: int| 0 <= j < encode_utf8(s).len() ==> bytes(#[trigger] encode_utf8(s)[j]))
            <==> (forall|i: int| 0 <= i < s.len() ==> chars(#[trigger] s[i])),
        (forall|i: int| 0 <= i < s.len() ==> chars(#[trigger] s[i])) ==> encode_utf8(s).len() == s.len(),
{
    let e = encode_utf8(s);
    if forall|i: int| 0 <= i < s.len() ==> chars(#[trigger] s[i]) {
        assert(is_ascii_chars(s)) by {
            assert forall|i: int| #![trigger s[i]] 0 <= i < s.len() implies ('\0' <= s[i] && s[i] <= '\u{7f}') by {
                assert(chars(s[i]));
                lemma_char_nonneg(s[i]);
            }
        }
        is_ascii_chars_encode_utf8(s);
        assert forall|j: int| 0 <= j < e.len() implies bytes(#[trigger] e[j]) by {
            assert(chars(s[j]));
            assert(s[j] as u8 == e[j]);
        }
    }
    if forall|j: int| 0 <= j < e.len() ==> bytes(#[trigger] e[j]) {
        if !is_ascii_chars(s) {
            lemma_non_ascii_byte(s);
            let j = choose|j: int| 0 <= j < e.len() && #[trigger] e[j] >= 0x80;
            assert(bytes(e[j]));
        }
        is_ascii_chars_encode_utf8(s);
        assert forall|i: int| 0 <= i < s.len() implies chars(#[trigger] s[i]) by {
            assert(s[i] as u8 == e[i]);
            assert(bytes(e[i]));
            assert('\0' <= s[i] <= '\u{7f}');
        }
    }
}

} // verus!
