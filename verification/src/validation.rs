//! The checks that every input of a run must pass before anything is started.
//! Each check either accepts its input or rejects it with a validation error whose text
//! says which rule failed; the rules are tried in a fixed order and the first that fails
//! decides the text.

use vstd::prelude::*;
use vstd::string::StringExecFns;
use vstd::utf8::{decode_utf8, encode_utf8, valid_utf8};
use crate::error::AppError;
use crate::text::{
    ascii_alnum, ascii_digit, ascii_lower, blank_or_control, chars_of, contains_chars,
    contains_text, has_blank_or_control, has_char, is_ascii_alnum, is_ascii_digit,
    is_ascii_alnum_byte, is_ascii_lower, is_blank_or_control, is_control_char, is_white_space, lemma_ascii_char_byte, lemma_bytes_in_class, lemma_encode_concat, lossy_text, lossy_utf8, occurs_at, occurs_at_index,
    utf8_text,
};

verus! {

broadcast use vstd::string::group_string_axioms;

/// `r` is a validation error with exactly the text `text`.
pub open spec fn rejected_with(r: Result<(), AppError>, text: Seq<char>) -> bool {
    r matches Err(AppError::Validation(m)) && m@ == text
}

/// `r` is what a check with the given first failed rule (`None`: none failed) returns.
pub open spec fn verdict(r: Result<(), AppError>, problem: Option<Seq<char>>) -> bool {
    match problem {
        None => r is Ok,
        Some(text) => rejected_with(r, text),
    }
}

/// A validation error with the given text.
pub fn invalid(message: &str) -> (e: AppError)
    ensures
        e matches AppError::Validation(m) && m@ == message@,
{
    AppError::Validation(String::from_str(message))
}

/// `label` followed by `tail`.
fn labelled(label: &str, tail: &str) -> (s: String)
    ensures
        s@ == label@ + tail@,
{
    let mut s = String::from_str(label);
    s.append(tail);
    s
}

// ---------------------------------------------------------------- hosts

/// The parts of `s` between the separators (what `str::split` gives: one more part than
/// there are separators, parts may be empty).
pub open spec fn split_on(s: Seq<char>, sep: char) -> Seq<Seq<char>>
    decreases s.len(),
{
    if s.len() == 0 {
        seq![Seq::empty()]
    } else {
        let prev = split_on(s.drop_last(), sep);
        if s.last() == sep {
            prev.push(Seq::empty())
        } else {
            prev.update(prev.len() - 1, prev.last().push(s.last()))
        }
    }
}

pub proof fn lemma_split_on_nonempty(s: Seq<char>, sep: char)
    ensures
        split_on(s, sep).len() >= 1,
    decreases s.len(),
{
    if s.len() > 0 {
        lemma_split_on_nonempty(s.drop_last(), sep);
    }
}

/// One label of a DNS name: 1 to 63 ASCII letters, digits and hyphens, not beginning or
/// ending with a hyphen.
pub open spec fn dns_label_ok(l: Seq<char>) -> bool {
    &&& 0 < l.len() <= 63
    &&& l[0] != '-'
    &&& l.last() != '-'
    &&& forall|i: int| 0 <= i < l.len() ==> is_ascii_alnum(#[trigger] l[i]) || l[i] == '-'
}

/// `s` without one trailing dot, if it has one.
pub open spec fn strip_trailing_dot(s: Seq<char>) -> Seq<char> {
    if s.len() > 0 && s.last() == '.' {
        s.take(s.len() - 1)
    } else {
        s
    }
}

/// Every dot-separated label of `h` is a valid DNS label.
pub open spec fn dns_labels_ok(h: Seq<char>) -> bool {
    forall|k: int| 0 <= k < split_on(h, '.').len() ==> dns_label_ok(#[trigger] split_on(h, '.')[k])
}

/// The first rule that the host `s` breaks. `ip_literal` says whether `s` parses as an
/// IPv4 or IPv6 address; such a host needs no DNS checks.
pub open spec fn host_problem(s: Seq<char>, ip_literal: bool) -> Option<Seq<char>> {
    if s.len() == 0 {
        Some("host must not be empty"@)
    } else if s[0] == '-' {
        Some("host must not begin with '-'"@)
    } else if exists|i: int| 0 <= i < s.len() && is_blank_or_control(#[trigger] s[i]) {
        Some("host must not contain whitespace or control characters"@)
    } else if s.contains('@') || contains_text(s, "://"@) {
        Some("host must be a bare IP address or DNS hostname"@)
    } else if ip_literal {
        None
    } else if strip_trailing_dot(s).len() == 0 || encode_utf8(s).len() > 253 {
        Some("host is not a valid DNS hostname"@)
    } else if !dns_labels_ok(strip_trailing_dot(s)) {
        Some("host is not a valid IP address or DNS hostname"@)
    } else {
        None
    }
}

/// An accepted host is never read as an option, holds no whitespace or control
/// characters, and names no user or URL scheme.
pub proof fn lemma_accepted_host_is_bare(s: Seq<char>, ip_literal: bool)
    requires
        host_problem(s, ip_literal) is None,
    ensures
        s.len() > 0,
        s[0] != '-',
        forall|i: int| 0 <= i < s.len() ==> !is_blank_or_control(#[trigger] s[i]),
        !s.contains('@'),
        !contains_text(s, "://"@),
{
}

/// A byte that a DNS label may hold: an ASCII letter, digit or hyphen.
pub open spec fn is_label_byte(b: u8) -> bool {
    is_ascii_alnum_byte(b) || b == 0x2d
}

/// One label of a DNS name, measured and tested byte by byte in its UTF-8 encoding: not
/// empty, at most 63 bytes, not beginning or ending with a hyphen, and every byte an ASCII
/// letter, digit or hyphen.
pub open spec fn dns_label_bytes_ok(l: Seq<char>) -> bool {
    &&& l.len() > 0
    &&& encode_utf8(l).len() <= 63
    &&& l[0] != '-'
    &&& l.last() != '-'
    &&& forall|j: int| 0 <= j < encode_utf8(l).len() ==> is_label_byte(#[trigger] encode_utf8(l)[j])
}

/// The label rule read by characters and the label rule read by bytes agree.
pub proof fn lemma_label_bytes(l: Seq<char>)
    ensures
        dns_label_ok(l) <==> dns_label_bytes_ok(l),
{
    let chars = |c: char| is_ascii_alnum(c) || c == '-';
    let bytes = |b: u8| is_label_byte(b);
    assert forall|c: char| #[trigger] chars(c) <==> (c <= '\u{7f}' && bytes(c as u8)) by {
        if c <= '\u{7f}' {
            lemma_ascii_char_byte(c);
        }
    }
    lemma_bytes_in_class(l, chars, bytes);
}

/// The hosts that are accepted, stated over their bytes as `str` measures them: not empty,
/// not beginning with `-`, without whitespace, control characters, `@` or `://`, and either
/// an IP address or, at most 253 bytes long, a DNS name (one trailing dot aside) whose
/// every dot-separated label is valid.
pub open spec fn host_accepted(s: Seq<char>, ip_literal: bool) -> bool {
    &&& s.len() > 0
    &&& s[0] != '-'
    &&& forall|i: int| 0 <= i < s.len() ==> !is_blank_or_control(#[trigger] s[i])
    &&& !s.contains('@')
    &&& !contains_text(s, "://"@)
    &&& (ip_literal || {
        &&& encode_utf8(s).len() <= 253
        &&& strip_trailing_dot(s).len() > 0
        &&& forall|k: int|
            0 <= k < split_on(strip_trailing_dot(s), '.').len() ==> dns_label_bytes_ok(
                #[trigger] split_on(strip_trailing_dot(s), '.')[k],
            )
    })
}

/// A host passes its check exactly when it is one of the accepted hosts.
pub proof fn lemma_host_acceptance(s: Seq<char>, ip_literal: bool)
    ensures
        host_problem(s, ip_literal) is None <==> host_accepted(s, ip_literal),
{
    let labels = split_on(strip_trailing_dot(s), '.');
    assert forall|k: int| 0 <= k < labels.len() implies (dns_label_ok(#[trigger] labels[k])
        <==> dns_label_bytes_ok(labels[k])) by {
        lemma_label_bytes(labels[k]);
    }
}

/// Whether `s[start..end]` is a valid DNS label.
fn label_ok(s: &Vec<char>, start: usize, end: usize) -> (r: bool)
    requires
        start <= end <= s.len(),
    ensures
        r == dns_label_ok(s@.subrange(start as int, end as int)),
{
    let ghost l = s@.subrange(start as int, end as int);
    if start == end || end - start > 63 {
        return false;
    }
    if s[start] == '-' || s[end - 1] == '-' {
        assert(l[0] == s@[start as int]);
        assert(l.last() == s@[end - 1]);
        return false;
    }
    let mut i: usize = start;
    while i < end
        invariant
            start <= i <= end <= s.len(),
            l == s@.subrange(start as int, end as int),
            forall|k: int| start <= k < i ==> is_ascii_alnum(#[trigger] s@[k]) || s@[k] == '-',
        decreases end - i,
    {
        if !(ascii_alnum(s[i]) || s[i] == '-') {
            assert(l[i - start] == s@[i as int]);
            return false;
        }
        i = i + 1;
    }
    assert forall|k: int| 0 <= k < l.len() implies is_ascii_alnum(#[trigger] l[k]) || l[k] == '-' by {
        assert(l[k] == s@[start + k]);
    }
    true
}

/// Whether every dot-separated label of `s[..end]` is a valid DNS label.
fn labels_ok(s: &Vec<char>, end: usize) -> (r: bool)
    requires
        end <= s.len(),
    ensures
        r == dns_labels_ok(s@.take(end as int)),
{
    let mut start: usize = 0;
    let mut i: usize = 0;
    proof {
        assert(s@.take(0) =~= Seq::<char>::empty());
        assert(s@.subrange(0, 0) =~= Seq::<char>::empty());
    }
    while i < end
        invariant
            start <= i <= end <= s.len(),
            split_on(s@.take(i as int), '.').len() >= 1,
            split_on(s@.take(i as int), '.').last() == s@.subrange(start as int, i as int),
            forall|k: int|
                0 <= k < split_on(s@.take(i as int), '.').len() - 1 ==> dns_label_ok(
                    #[trigger] split_on(s@.take(i as int), '.')[k],
                ),
        decreases end - i,
    {
        let ghost prev = split_on(s@.take(i as int), '.');
        proof {
            assert(s@.take(i + 1).drop_last() =~= s@.take(i as int));
            assert(s@.take(i + 1).last() == s@[i as int]);
        }
        if s[i] == '.' {
            if !label_ok(s, start, i) {
                proof {
                    let full = split_on(s@.take(end as int), '.');
                    lemma_split_prefix(s@.take(end as int), i as int);
                    assert(s@.take(end as int).take(i as int) =~= s@.take(i as int));
                    let kk = prev.len() - 1;
                    assert(full[kk] == prev[kk]);
                    assert(!dns_label_ok(full[kk]));
                }
                return false;
            }
            start = i + 1;
            proof {
                let next = split_on(s@.take(i + 1), '.');
                assert(next == prev.push(Seq::<char>::empty()));
                assert(s@.subrange(i + 1, i + 1) =~= Seq::<char>::empty());
                assert forall|k: int| 0 <= k < next.len() - 1 implies dns_label_ok(#[trigger] next[k]) by {
                    assert(next[k] == prev[k]);
                }
            }
        } else {
            proof {
                let next = split_on(s@.take(i + 1), '.');
                assert(next == prev.update(prev.len() - 1, prev.last().push(s@[i as int])));
                assert(s@.subrange(start as int, i + 1) =~= s@.subrange(start as int, i as int).push(
                    s@[i as int],
                ));
                assert forall|k: int| 0 <= k < next.len() - 1 implies dns_label_ok(#[trigger] next[k]) by {
                    assert(next[k] == prev[k]);
                }
            }
        }
        i = i + 1;
    }
    let last_ok = label_ok(s, start, end);
    proof {
        let full = split_on(s@.take(end as int), '.');
        assert(full[full.len() - 1] == full.last());
        if last_ok {
            assert forall|k: int| 0 <= k < full.len() implies dns_label_ok(#[trigger] full[k]) by {
                if k < full.len() - 1 {
                } else {
                    assert(full[k] == full.last());
                }
            }
        }
    }
    last_ok
}

/// The labels of a prefix that ends at a separator are the leading labels of the whole
/// text, all but the last one of the prefix unchanged.
proof fn lemma_split_prefix(s: Seq<char>, i: int)
    requires
        0 <= i < s.len(),
        s[i] == '.',
    ensures
        split_on(s.take(i), '.').len() <= split_on(s, '.').len() - 1,
        forall|k: int|
            0 <= k < split_on(s.take(i), '.').len() ==> #[trigger] split_on(s, '.')[k]
                == split_on(s.take(i), '.')[k],
    decreases s.len(),
{
    lemma_split_on_nonempty(s.take(i), '.');
    lemma_split_on_nonempty(s, '.');
    if i == s.len() - 1 {
        assert(s.drop_last() =~= s.take(i));
    } else {
        lemma_split_on_nonempty(s.drop_last(), '.');
        lemma_split_prefix(s.drop_last(), i);
        assert(s.drop_last().take(i) =~= s.take(i));
        lemma_split_monotone(s, s.take(i));
    }
}

/// Adding a character keeps every label but the last.
proof fn lemma_split_monotone(s: Seq<char>, p: Seq<char>)
    requires
        s.len() > 0,
        split_on(s.drop_last(), '.').len() >= 1,
        split_on(p, '.').len() <= split_on(s.drop_last(), '.').len() - 1,
        forall|k: int|
            0 <= k < split_on(p, '.').len() ==> #[trigger] split_on(s.drop_last(), '.')[k]
                == split_on(p, '.')[k],
    ensures
        split_on(p, '.').len() <= split_on(s, '.').len() - 1,
        forall|k: int|
            0 <= k < split_on(p, '.').len() ==> #[trigger] split_on(s, '.')[k] == split_on(
                p,
                '.',
            )[k],
{
    let prev = split_on(s.drop_last(), '.');
    let cur = split_on(s, '.');
    assert forall|k: int| 0 <= k < split_on(p, '.').len() implies #[trigger] cur[k] == split_on(
        p,
        '.',
    )[k] by {
        assert(cur[k] == prev[k]);
    }
}

/// Texts joined with `sep` between them.
pub open spec fn join_with(ws: Seq<Seq<char>>, sep: char) -> Seq<char>
    decreases ws.len(),
{
    if ws.len() == 0 {
        Seq::empty()
    } else if ws.len() == 1 {
        ws[0]
    } else {
        ws[0] + seq![sep] + join_with(ws.drop_first(), sep)
    }
}

pub open spec fn is_hex_digit(c: char) -> bool {
    is_ascii_digit(c) || ('a' <= c <= 'f') || ('A' <= c <= 'F')
}

/// One group of an IPv6 address: one to four hexadecimal digits.
pub open spec fn hex_group(g: Seq<char>) -> bool {
    1 <= g.len() <= 4 && forall|i: int| 0 <= i < g.len() ==> is_hex_digit(#[trigger] g[i])
}

/// The number that decimal digits stand for.
pub open spec fn decimal_value(g: Seq<char>) -> nat
    decreases g.len(),
{
    if g.len() == 0 {
        0
    } else {
        decimal_value(g.drop_last()) * 10 + ((g.last() as int - '0' as int) as nat)
    }
}

/// One part of an IPv4 address: one to three decimal digits, without a leading zero,
/// standing for at most 255.
pub open spec fn decimal_octet(g: Seq<char>) -> bool {
    &&& 1 <= g.len() <= 3
    &&& forall|i: int| 0 <= i < g.len() ==> is_ascii_digit(#[trigger] g[i])
    &&& (g.len() > 1 ==> g[0] != '0')
    &&& decimal_value(g) <= 255
}

/// An IPv4 address in dot-decimal notation: four parts separated by dots.
pub open spec fn ipv4_text(s: Seq<char>) -> bool {
    exists|gs: Seq<Seq<char>>|
        gs.len() == 4 && (forall|k: int| 0 <= k < 4 ==> decimal_octet(#[trigger] gs[k])) && s
            == join_with(gs, '.')
}

/// An IPv6 address in the hexadecimal text forms of RFC 4291: eight groups separated by
/// colons, or at most seven groups with one `::` standing for the groups left out.
pub open spec fn ipv6_text(s: Seq<char>) -> bool {
    ||| exists|gs: Seq<Seq<char>>|
        gs.len() == 8 && (forall|k: int| 0 <= k < gs.len() ==> hex_group(#[trigger] gs[k])) && s
            == join_with(gs, ':')
    ||| exists|h: Seq<Seq<char>>, t: Seq<Seq<char>>|
        h.len() + t.len() <= 7 && (forall|k: int| 0 <= k < h.len() ==> hex_group(#[trigger] h[k]))
            && (forall|k: int| 0 <= k < t.len() ==> hex_group(#[trigger] t[k])) && s == join_with(
            h,
            ':',
        ) + seq![':', ':'] + join_with(t, ':')
}

/// Whether a text is an IPv4 or IPv6 address, as the `FromStr` impl of
/// `core::net::IpAddr` reads it.
pub uninterp spec fn is_ip_address(s: Seq<char>) -> bool;

/// `str::parse::<core::net::IpAddr>`: whether the text parses as an IP address.
/// Claimed: the verdict is a function of the text alone (`is_ip_address`); empty text is no
/// address; every IPv4 address in dot-decimal notation and every IPv6 address in the
/// hexadecimal text forms of RFC 4291 (with or without `::`) is one. Which other texts are
/// accepted (IPv6 forms that end in an IPv4 address) is left unsaid.
#[verifier::external_body]
fn ip_address(value: &str) -> (r: bool)
    ensures
        r == is_ip_address(value@),
        value@.len() == 0 ==> !r,
        ipv4_text(value@) || ipv6_text(value@) ==> r,
{
    value.parse::<core::net::IpAddr>().is_ok()
}

/// Characters of address text: hexadecimal digits, colons and dots.
pub open spec fn is_address_char(c: char) -> bool {
    is_hex_digit(c) || c == ':' || c == '.'
}

/// Joined texts hold only characters of the texts and the separator.
proof fn lemma_join_chars(ws: Seq<Seq<char>>, sep: char)
    requires
        is_address_char(sep),
        forall|k: int, j: int|
            0 <= k < ws.len() && 0 <= j < ws[k].len() ==> is_address_char(#[trigger] ws[k][j]),
    ensures
        forall|i: int| 0 <= i < join_with(ws, sep).len() ==> is_address_char(#[trigger] join_with(ws, sep)[i]),
        ws.len() > 0 ==> join_with(ws, sep).len() >= ws[0].len(),
        ws.len() > 0 && ws[0].len() > 0 ==> join_with(ws, sep)[0] == ws[0][0],
    decreases ws.len(),
{
    if ws.len() > 1 {
        let rest = ws.drop_first();
        assert forall|k: int, j: int|
            0 <= k < rest.len() && 0 <= j < rest[k].len() implies is_address_char(#[trigger] rest[k][j]) by {
            assert(rest[k] == ws[k + 1]);
        }
        lemma_join_chars(rest, sep);
        let whole = join_with(ws, sep);
        let tail = join_with(rest, sep);
        assert(whole == ws[0] + seq![sep] + tail);
        assert forall|i: int| 0 <= i < whole.len() implies is_address_char(#[trigger] whole[i]) by {
            if i < ws[0].len() {
                assert(whole[i] == ws[0][i]);
            } else if i == ws[0].len() {
                assert(whole[i] == sep);
            } else {
                assert(whole[i] == tail[i - ws[0].len() - 1]);
            }
        }
    } else if ws.len() == 1 {
        assert forall|i: int| 0 <= i < join_with(ws, sep).len() implies is_address_char(
            #[trigger] join_with(ws, sep)[i],
        ) by {
            assert(join_with(ws, sep)[i] == ws[0][i]);
        }
    }
}

/// A text made of address characters only, and not empty, breaks none of the host rules
/// that come before the IP address test.
proof fn lemma_address_chars_bare(s: Seq<char>)
    requires
        s.len() > 0,
        forall|i: int| 0 <= i < s.len() ==> is_address_char(#[trigger] s[i]),
    ensures
        host_problem(s, true) is None,
{
    reveal_strlit("://");
    assert(is_address_char(s[0]));
    assert forall|i: int| 0 <= i < s.len() implies !is_blank_or_control(#[trigger] s[i]) by {
        assert(is_address_char(s[i]));
    }
    if s.contains('@') {
        let k = choose|k: int| 0 <= k < s.len() && s[k] == '@';
        assert(is_address_char(s[k]));
    }
    if contains_text(s, "://"@) {
        let k = choose|k: int| occurs_at(s, "://"@, k);
        assert(s.subrange(k, k + 3)[1] == s[k + 1]);
        assert(is_address_char(s[k + 1]));
    }
}

/// Every IPv4 address in dot-decimal notation, and every IPv6 address in the hexadecimal
/// forms of RFC 4291, is an accepted host, however long it is.
pub proof fn lemma_ip_text_host(s: Seq<char>)
    requires
        ipv4_text(s) || ipv6_text(s),
    ensures
        host_problem(s, true) is None,
{
    if ipv4_text(s) {
        let gs = choose|gs: Seq<Seq<char>>|
            gs.len() == 4 && (forall|k: int| 0 <= k < 4 ==> decimal_octet(#[trigger] gs[k])) && s
                == join_with(gs, '.');
        assert forall|k: int, j: int| 0 <= k < gs.len() && 0 <= j < gs[k].len() implies is_address_char(
            #[trigger] gs[k][j],
        ) by {
            assert(decimal_octet(gs[k]));
        }
        lemma_join_chars(gs, '.');
        assert(decimal_octet(gs[0]));
        lemma_address_chars_bare(s);
    } else if exists|gs: Seq<Seq<char>>|
        gs.len() == 8 && (forall|k: int| 0 <= k < gs.len() ==> hex_group(#[trigger] gs[k])) && s
            == join_with(gs, ':') {
        let gs = choose|gs: Seq<Seq<char>>|
            gs.len() == 8 && (forall|k: int| 0 <= k < gs.len() ==> hex_group(#[trigger] gs[k])) && s
                == join_with(gs, ':');
        assert forall|k: int, j: int| 0 <= k < gs.len() && 0 <= j < gs[k].len() implies is_address_char(
            #[trigger] gs[k][j],
        ) by {
            assert(hex_group(gs[k]));
        }
        lemma_join_chars(gs, ':');
        assert(hex_group(gs[0]));
        lemma_address_chars_bare(s);
    } else {
        let (h, t) = choose|h: Seq<Seq<char>>, t: Seq<Seq<char>>|
            h.len() + t.len() <= 7 && (forall|k: int| 0 <= k < h.len() ==> hex_group(#[trigger] h[k]))
                && (forall|k: int| 0 <= k < t.len() ==> hex_group(#[trigger] t[k])) && s == join_with(
                h,
                ':',
            ) + seq![':', ':'] + join_with(t, ':');
        assert forall|k: int, j: int| 0 <= k < h.len() && 0 <= j < h[k].len() implies is_address_char(
            #[trigger] h[k][j],
        ) by {
            assert(hex_group(h[k]));
        }
        assert forall|k: int, j: int| 0 <= k < t.len() && 0 <= j < t[k].len() implies is_address_char(
            #[trigger] t[k][j],
        ) by {
            assert(hex_group(t[k]));
        }
        lemma_join_chars(h, ':');
        lemma_join_chars(t, ':');
        let a = join_with(h, ':');
        let b = join_with(t, ':');
        let mid = seq![':', ':'];
        assert forall|i: int| 0 <= i < s.len() implies is_address_char(#[trigger] s[i]) by {
            if i < a.len() {
                assert(s[i] == a[i]);
            } else if i < a.len() + 2 {
                assert(s[i] == mid[i - a.len()]);
            } else {
                assert(s[i] == b[i - a.len() - 2]);
            }
        }
        lemma_address_chars_bare(s);
    }
}

/// Checks that `value` names a host: an IP address or a
/// DNS hostname of at most 253 bytes, with an optional trailing dot.
pub fn host(value: &str) -> (r: Result<(), AppError>)
    ensures
        verdict(r, host_problem(value@, is_ip_address(value@))),
        ipv4_text(value@) || ipv6_text(value@) ==> r is Ok,
{
    proof {
        if ipv4_text(value@) || ipv6_text(value@) {
            lemma_ip_text_host(value@);
        }
    }
    let s = chars_of(value);
    if s.len() == 0 {
        return Err(invalid("host must not be empty"));
    }
    if s[0] == '-' {
        return Err(invalid("host must not begin with '-'"));
    }
    if has_blank_or_control(&s) {
        return Err(invalid("host must not contain whitespace or control characters"));
    }
    let scheme = chars_of("://");
    if has_char(&s, '@') || contains_chars(&s, &scheme) {
        return Err(invalid("host must be a bare IP address or DNS hostname"));
    }
    if ip_address(value) {
        return Ok(());
    }
    let end: usize = if s[s.len() - 1] == '.' {
        s.len() - 1
    } else {
        s.len()
    };
    proof {
        assert(strip_trailing_dot(s@) == s@.take(end as int)) by {
            assert(s@.take(s@.len() as int) =~= s@);
        }
    }
    if end == 0 || value.as_bytes().len() > 253 {
        return Err(invalid("host is not a valid DNS hostname"));
    }
    if !labels_ok(&s, end) {
        return Err(invalid("host is not a valid IP address or DNS hostname"));
    }
    Ok(())
}

// ---------------------------------------------------------------- users

/// The first character of a user name: a lowercase ASCII letter or `_`.
pub open spec fn user_first_char(c: char) -> bool {
    is_ascii_lower(c) || c == '_'
}

/// Any later character of a user name: a lowercase ASCII letter, a digit, `_` or `-`.
pub open spec fn user_char(c: char) -> bool {
    is_ascii_lower(c) || is_ascii_digit(c) || c == '_' || c == '-'
}

/// The characters of `s` are those of a user name (the length aside).
pub open spec fn user_chars_ok(s: Seq<char>) -> bool {
    &&& s.len() > 0
    &&& user_first_char(s[0])
    &&& forall|i: int| 1 <= i < s.len() ==> user_char(#[trigger] s[i])
}

/// The first rule that the SSH user name `s` breaks.
pub open spec fn username_problem(s: Seq<char>, allow_root: bool) -> Option<Seq<char>> {
    if encode_utf8(s).len() > 32 || !user_chars_ok(s) {
        Some("SSH user must match ^[a-z_][a-z0-9_-]{0,31}$"@)
    } else if s == "root"@ && !allow_root {
        Some("SSH user 'root' requires --allow-root"@)
    } else {
        None
    }
}

/// Checks the SSH user name; `root` only where `allow_root` is set.
pub fn username(value: &str, allow_root: bool) -> (r: Result<(), AppError>)
    ensures
        verdict(r, username_problem(value@, allow_root)),
{
    let s = chars_of(value);
    let first_valid = s.len() > 0 && (ascii_lower(s[0]) || s[0] == '_');
    let mut rest_valid = true;
    let mut i: usize = 1;
    while i < s.len()
        invariant
            1 <= i,
            i <= s.len() || s.len() == 0,
            rest_valid == forall|k: int| 1 <= k < i && k < s.len() ==> user_char(#[trigger] s@[k]),
        decreases s.len() - i,
    {
        let c = s[i];
        if !(ascii_lower(c) || ascii_digit(c) || c == '_' || c == '-') {
            rest_valid = false;
        }
        i = i + 1;
    }
    proof {
        assert(rest_valid == forall|k: int| 1 <= k < s@.len() ==> user_char(#[trigger] s@[k]));
    }
    if value.as_bytes().len() > 32 || !first_valid || !rest_valid {
        return Err(invalid("SSH user must match ^[a-z_][a-z0-9_-]{0,31}$"));
    }
    if crate::text::same_text(value, "root") && !allow_root {
        return Err(invalid("SSH user 'root' requires --allow-root"));
    }
    Ok(())
}

/// A user name is accepted exactly when it matches `^[a-z_][a-z0-9_-]{0,31}$`, and it is
/// not `root` or `allow_root` is set.
pub proof fn lemma_username_pattern(s: Seq<char>, allow_root: bool)
    ensures
        username_problem(s, allow_root) is None <==> (user_chars_ok(s) && s.len() <= 32 && (
        s != "root"@ || allow_root)),
{
    if user_chars_ok(s) {
        assert(vstd::utf8::is_ascii_chars(s)) by {
            assert forall|i: int| 0 <= i < s.len() implies '\0' <= #[trigger] s[i] <= '\u{7f}' by {
                if i > 0 {
                    assert(user_char(s[i]));
                }
            }
        }
        vstd::utf8::is_ascii_chars_encode_utf8(s);
    }
}

/// Whether `root` is allowed changes the verdict on `root` alone.
pub proof fn lemma_allow_root_only_affects_root(s: Seq<char>)
    ensures
        s != "root"@ ==> username_problem(s, false) == username_problem(s, true),
        s == "root"@ ==> username_problem(s, true) is None && username_problem(s, false) is Some,
{
    reveal_strlit("root");
    if s == "root"@ {
        assert(user_chars_ok(s));
        lemma_username_pattern(s, true);
    }
}

// ---------------------------------------------------------------- scripts

/// The directory that every script must lie below.
pub open spec fn script_dir() -> Seq<char> {
    "/opt/shellcd/scripts/"@
}

/// A character that a script path may hold.
pub open spec fn script_char(c: char) -> bool {
    is_ascii_alnum(c) || c == '/' || c == '_' || c == '-' || c == '.'
}

/// The first rule that the script path `s` breaks.
pub open spec fn script_path_problem(s: Seq<char>) -> Option<Seq<char>> {
    if !occurs_at(s, script_dir(), 0) || encode_utf8(s).len() == encode_utf8(script_dir()).len() {
        Some("script must be below /opt/shellcd/scripts/"@)
    } else if !(s.len() >= 3 && occurs_at(s, ".sh"@, s.len() - 3)) {
        Some("script must end in .sh"@)
    } else if contains_text(s, ".."@) {
        Some("script must not contain '..'"@)
    } else if contains_text(s, "//"@) {
        Some("script must not contain repeated path separators"@)
    } else if !(forall|i: int| 0 <= i < s.len() ==> script_char(#[trigger] s[i])) {
        Some("script may contain only ASCII letters, digits, '/', '_', '-', and '.'"@)
    } else {
        None
    }
}

/// Checks that `value` names a `.sh` script below the scripts directory, without `..`,
/// repeated separators, or any character but ASCII letters, digits, `/`, `_`, `-`, `.`.
#[verifier::loop_isolation(false)]
pub fn script_path(value: &str) -> (r: Result<(), AppError>)
    ensures
        verdict(r, script_path_problem(value@)),
{
    let s = chars_of(value);
    let prefix = chars_of("/opt/shellcd/scripts/");
    if !occurs_at_index(&s, &prefix, 0) || value.as_bytes().len() == "/opt/shellcd/scripts/".as_bytes().len() {
        return Err(invalid("script must be below /opt/shellcd/scripts/"));
    }
    let suffix = chars_of(".sh");
    proof {
        reveal_strlit(".sh");
    }
    if !(s.len() >= 3 && occurs_at_index(&s, &suffix, s.len() - 3)) {
        return Err(invalid("script must end in .sh"));
    }
    if contains_chars(&s, &chars_of("..")) {
        return Err(invalid("script must not contain '..'"));
    }
    if contains_chars(&s, &chars_of("//")) {
        return Err(invalid("script must not contain repeated path separators"));
    }
    let mut i: usize = 0;
    while i < s.len()
        invariant
            i <= s.len(),
            forall|k: int| 0 <= k < i ==> script_char(#[trigger] s@[k]),
        decreases s.len() - i,
    {
        let c = s[i];
        if !(ascii_alnum(c) || c == '/' || c == '_' || c == '-' || c == '.') {
            assert(!script_char(s@[i as int]));
            return Err(invalid("script may contain only ASCII letters, digits, '/', '_', '-', and '.'"));
        }
        i = i + 1;
    }
    Ok(())
}

/// A byte that a script path may hold: an ASCII letter or digit, `/`, `_`, `-` or `.`.
pub open spec fn is_script_byte(b: u8) -> bool {
    is_ascii_alnum_byte(b) || b == 0x2f || b == 0x5f || b == 0x2d || b == 0x2e
}

/// The script paths that are accepted, stated over their bytes as `str` measures them:
/// below the scripts directory and longer than it (21 bytes), ending in `.sh`, without
/// `..` or `//`, and every byte an ASCII letter or digit, `/`, `_`, `-` or `.`.
pub open spec fn script_path_accepted(s: Seq<char>) -> bool {
    &&& occurs_at(s, script_dir(), 0)
    &&& encode_utf8(s).len() > 21
    &&& s.len() >= 3
    &&& occurs_at(s, ".sh"@, s.len() - 3)
    &&& !contains_text(s, ".."@)
    &&& !contains_text(s, "//"@)
    &&& forall|j: int| 0 <= j < encode_utf8(s).len() ==> is_script_byte(#[trigger] encode_utf8(s)[j])
}

/// A script path passes its check exactly when it is one of the accepted paths.
pub proof fn lemma_script_path_acceptance(s: Seq<char>)
    ensures
        script_path_problem(s) is None <==> script_path_accepted(s),
{
    reveal_strlit("/opt/shellcd/scripts/");
    let dir = script_dir();
    let chars = |c: char| script_char(c);
    let bytes = |b: u8| is_script_byte(b);
    assert forall|c: char| #[trigger] chars(c) <==> (c <= '\u{7f}' && bytes(c as u8)) by {
        if c <= '\u{7f}' {
            lemma_ascii_char_byte(c);
        }
    }
    lemma_bytes_in_class(dir, chars, bytes);
    assert(encode_utf8(dir).len() == 21) by {
        assert forall|i: int| 0 <= i < dir.len() implies chars(#[trigger] dir[i]) by {}
    }
    lemma_bytes_in_class(s, chars, bytes);
    if occurs_at(s, dir, 0) {
        let rest = s.skip(dir.len() as int);
        assert(s.subrange(0, dir.len() as int) == dir);
        assert(s =~= dir + rest);
        lemma_encode_concat(dir, rest);
    }
}

// ---------------------------------------------------------------- emails

/// How many times `c` occurs in `s`.
pub open spec fn count_char(s: Seq<char>, c: char) -> nat
    decreases s.len(),
{
    if s.len() == 0 {
        0
    } else {
        count_char(s.drop_last(), c) + if s.last() == c { 1nat } else { 0nat }
    }
}

/// Where `c` first occurs in `s` (`s.len()` where it does not).
pub open spec fn first_index(s: Seq<char>, c: char) -> int
    decreases s.len(),
{
    if s.len() == 0 {
        0
    } else if s[0] == c {
        0
    } else {
        1 + first_index(s.drop_first(), c)
    }
}

proof fn lemma_first_index(s: Seq<char>, c: char, p: int)
    requires
        0 <= p < s.len(),
        s[p] == c,
        forall|k: int| 0 <= k < p ==> s[k] != c,
    ensures
        first_index(s, c) == p,
    decreases p,
{
    if p > 0 {
        assert(s[0] != c);
        lemma_first_index(s.drop_first(), c, p - 1);
    }
}

/// The first rule that the email address `s` breaks.
pub open spec fn email_problem(s: Seq<char>) -> Option<Seq<char>> {
    if encode_utf8(s).len() > 254 || (exists|i: int|
        0 <= i < s.len() && is_blank_or_control(#[trigger] s[i])) || count_char(s, '@') != 1 {
        Some("caller email is not a valid basic email address"@)
    } else {
        let at = first_index(s, '@');
        if s.take(at).len() == 0 || s.skip(at + 1).len() == 0 {
            Some("caller email must have non-empty local and domain parts"@)
        } else {
            None
        }
    }
}

/// The email addresses that are accepted: at most 254 bytes, no whitespace or control
/// characters, and a non-empty local part and a non-empty domain around the one `@`.
pub open spec fn email_accepted(s: Seq<char>) -> bool {
    &&& encode_utf8(s).len() <= 254
    &&& forall|i: int| 0 <= i < s.len() ==> !is_blank_or_control(#[trigger] s[i])
    &&& exists|l: Seq<char>, d: Seq<char>|
        s == l + seq!['@'] + d && l.len() > 0 && d.len() > 0 && !l.contains('@') && !d.contains(
            '@',
        )
}

proof fn lemma_count_concat(a: Seq<char>, b: Seq<char>, c: char)
    ensures
        count_char(a + b, c) == count_char(a, c) + count_char(b, c),
    decreases b.len(),
{
    if b.len() == 0 {
        assert(a + b =~= a);
    } else {
        lemma_count_concat(a, b.drop_last(), c);
        assert((a + b).drop_last() =~= a + b.drop_last());
        assert((a + b).last() == b.last());
    }
}

proof fn lemma_count_at_sign()
    ensures
        count_char(seq!['@'], '@') == 1,
{
    let one = seq!['@'];
    assert(one.drop_last() =~= Seq::<char>::empty());
    assert(count_char(Seq::<char>::empty(), '@') == 0);
    assert(one.last() == '@');
}

proof fn lemma_count_zero(s: Seq<char>, c: char)
    ensures
        count_char(s, c) == 0 <==> !s.contains(c),
    decreases s.len(),
{
    if s.len() > 0 {
        lemma_count_zero(s.drop_last(), c);
        if s.drop_last().contains(c) {
            let k = choose|k: int| 0 <= k < s.drop_last().len() && s.drop_last()[k] == c;
            assert(s[k] == c);
        }
        if s.contains(c) && s.last() != c {
            let k = choose|k: int| 0 <= k < s.len() && s[k] == c;
            assert(k < s.len() - 1);
            assert(s.drop_last()[k] == c);
        }
        if s.last() == c {
            assert(s[s.len() - 1] == c);
        }
    }
}

proof fn lemma_first_index_found(s: Seq<char>, c: char)
    requires
        s.contains(c),
    ensures
        0 <= first_index(s, c) < s.len(),
        s[first_index(s, c)] == c,
        forall|k: int| 0 <= k < first_index(s, c) ==> s[k] != c,
    decreases s.len(),
{
    if s[0] != c {
        let k = choose|k: int| 0 <= k < s.len() && s[k] == c;
        assert(s.drop_first()[k - 1] == c);
        lemma_first_index_found(s.drop_first(), c);
        assert forall|k: int| 0 <= k < first_index(s, c) implies s[k] != c by {
            if k > 0 {
                assert(s[k] == s.drop_first()[k - 1]);
            }
        }
    }
}

/// An email address passes its check exactly when it is one of the accepted addresses:
/// nothing is asked of the local part or the domain but that they are not empty.
pub proof fn lemma_email_acceptance(s: Seq<char>)
    ensures
        email_problem(s) is None <==> email_accepted(s),
{
    if email_problem(s) is None {
        lemma_count_zero(s, '@');
        lemma_first_index_found(s, '@');
        let at = first_index(s, '@');
        let l = s.take(at);
        let d = s.skip(at + 1);
        assert(s =~= l + seq!['@'] + d);
        lemma_count_concat(l + seq!['@'], d, '@');
        lemma_count_concat(l, seq!['@'], '@');
        lemma_count_at_sign();
        lemma_count_zero(l, '@');
        lemma_count_zero(d, '@');
        assert(s == l + seq!['@'] + d && l.len() > 0 && d.len() > 0 && !l.contains('@')
            && !d.contains('@'));
    }
    if email_accepted(s) {
        let (l, d) = choose|l: Seq<char>, d: Seq<char>|
            s == l + seq!['@'] + d && l.len() > 0 && d.len() > 0 && !l.contains('@')
                && !d.contains('@');
        lemma_count_concat(l + seq!['@'], d, '@');
        lemma_count_concat(l, seq!['@'], '@');
        lemma_count_at_sign();
        lemma_count_zero(l, '@');
        lemma_count_zero(d, '@');
        assert forall|k: int| 0 <= k < l.len() implies s[k] != '@' by {
            assert(s[k] == l[k]);
        }
        assert(s[l.len() as int] == '@');
        lemma_first_index(s, '@', l.len() as int);
        assert(s.take(l.len() as int) =~= l);
        assert(s.skip(l.len() as int + 1) =~= d);
    }
}

/// Checks that `value` is a basic email address: at most 254 bytes, no whitespace or
/// control characters, exactly one `@` with text on both sides.
pub fn email(value: &str) -> (r: Result<(), AppError>)
    ensures
        verdict(r, email_problem(value@)),
{
    let s = chars_of(value);
    let mut count: usize = 0;
    let mut at: usize = 0;
    let mut i: usize = 0;
    while i < s.len()
        invariant
            i <= s.len(),
            count == count_char(s@.take(i as int), '@'),
            count <= i,
            count > 0 ==> at < i && s@[at as int] == '@' && forall|k: int| 0 <= k < at ==> s@[k] != '@',
            count == 0 ==> forall|k: int| 0 <= k < i ==> s@[k] != '@',
        decreases s.len() - i,
    {
        proof {
            assert(s@.take(i + 1).drop_last() =~= s@.take(i as int));
            assert(s@.take(i + 1).last() == s@[i as int]);
        }
        if s[i] == '@' {
            if count == 0 {
                at = i;
            }
            count = count + 1;
        }
        i = i + 1;
    }
    assert(s@.take(s.len() as int) =~= s@);
    if value.as_bytes().len() > 254 || has_blank_or_control(&s) || count != 1 {
        return Err(invalid("caller email is not a valid basic email address"));
    }
    proof {
        lemma_first_index(s@, '@', at as int);
    }
    if at == 0 || at == s.len() - 1 {
        return Err(invalid("caller email must have non-empty local and domain parts"));
    }
    Ok(())
}

// ---------------------------------------------------------------- paths and files

/// A character that an OpenSSH option value may not hold unquoted.
pub open spec fn option_path_forbidden(c: char) -> bool {
    is_blank_or_control(c) || c == '\\' || c == '\'' || c == '"'
}

/// The first rule that a path (its bytes) given to OpenSSH in an option breaks.
pub open spec fn option_path_problem(path: Seq<u8>, label: Seq<char>) -> Option<Seq<char>> {
    if !valid_utf8(path) {
        Some(label + " path must be valid UTF-8"@)
    } else if exists|i: int|
        0 <= i < decode_utf8(path).len() && option_path_forbidden(#[trigger] decode_utf8(path)[i]) {
        Some(label + " path must not contain whitespace, quotes, backslashes, or control characters"@)
    } else {
        None
    }
}

/// The paths that can stand in an OpenSSH option as they are: valid UTF-8, and no
/// character whitespace, a control character, a backslash or a quote.
pub open spec fn option_path_accepted(path: Seq<u8>) -> bool {
    &&& valid_utf8(path)
    &&& forall|i: int|
        0 <= i < decode_utf8(path).len() ==> {
            let c = #[trigger] decode_utf8(path)[i];
            !is_white_space(c) && !is_control_char(c) && c != '\\' && c != '\'' && c != '"'
        }
}

/// A path passes the option check exactly when it is one of the accepted paths.
pub proof fn lemma_option_path_acceptance(path: Seq<u8>, label: Seq<char>)
    ensures
        option_path_problem(path, label) is None <==> option_path_accepted(path),
{
}

/// Checks that a path can stand in an OpenSSH option as it is: valid UTF-8, without
/// whitespace, quotes, backslashes or control characters.
pub fn openssh_option_path(path: &[u8], label: &str) -> (r: Result<(), AppError>)
    ensures
        verdict(r, option_path_problem(path@, label@)),
{
    let text = match utf8_text(path) {
        Some(text) => text,
        None => {
            return Err(AppError::Validation(labelled(label, " path must be valid UTF-8")));
        },
    };
    let s = chars_of(text.as_str());
    let mut i: usize = 0;
    while i < s.len()
        invariant
            i <= s.len(),
            valid_utf8(path@),
            s@ == decode_utf8(path@),
            forall|k: int| 0 <= k < i ==> !option_path_forbidden(#[trigger] s@[k]),
        decreases s.len() - i,
    {
        let c = s[i];
        if blank_or_control(c) || c == '\\' || c == '\'' || c == '"' {
            assert(option_path_forbidden(decode_utf8(path@)[i as int]));
            return Err(
                AppError::Validation(
                    labelled(
                        label,
                        " path must not contain whitespace, quotes, backslashes, or control characters",
                    ),
                ),
            );
        }
        i = i + 1;
    }
    Ok(())
}

/// What the file system reports about a path.
#[derive(Debug)]
pub struct FileStat {
    /// The path names a regular file.
    pub is_file: bool,
    /// The file's size in bytes.
    pub len: u64,
}

/// The text that reports a failed look-up of a file.
pub open spec fn lookup_failure(label: Seq<char>, path: Seq<u8>, error: Seq<char>) -> Seq<char> {
    label + " file '"@ + lossy_text(path) + "': "@ + error
}

/// The first rule that a file which must be a non-empty regular file breaks, given what
/// looking it up gave (`Err`: the text of the failure).
pub open spec fn file_problem(path: Seq<u8>, label: Seq<char>, stat: Result<FileStat, String>) -> Option<
    Seq<char>,
> {
    match stat {
        Err(error) => Some(lookup_failure(label, path, error@)),
        Ok(st) => if !st.is_file {
            Some(label + " file must be a regular file"@)
        } else if st.len == 0 {
            Some(label + " file must not be empty"@)
        } else {
            None
        },
    }
}

/// The report of a failed look-up.
fn lookup_failure_text(label: &str, path: &[u8], error: &String) -> (s: String)
    ensures
        s@ == lookup_failure(label@, path@, error@),
{
    let mut s = labelled(label, " file '");
    let shown = lossy_utf8(path);
    s.append(shown.as_str());
    s.append("': ");
    s.append(error.as_str());
    s
}

/// Checks that the file at `path` is a non-empty regular file, from what looking it up
/// gave.
pub fn nonempty_regular_file(path: &[u8], label: &str, stat: &Result<FileStat, String>) -> (r:
    Result<(), AppError>)
    ensures
        verdict(r, file_problem(path@, label@, *stat)),
{
    match stat {
        Err(error) => Err(AppError::Validation(lookup_failure_text(label, path, error))),
        Ok(st) => {
            if !st.is_file {
                return Err(AppError::Validation(labelled(label, " file must be a regular file")));
            }
            if st.len == 0 {
                return Err(AppError::Validation(labelled(label, " file must not be empty")));
            }
            Ok(())
        },
    }
}

/// Permission bits that give the group or others any access.
pub open spec fn shared_access(mode: u32) -> bool {
    mode & 0o077u32 != 0
}

/// The first rule that the private key file breaks: it must be a non-empty regular file
/// and, where the platform has permission bits (`mode` is `Some`: what reading them gave),
/// grant no access to the group or others.
pub open spec fn private_key_problem(
    path: Seq<u8>,
    stat: Result<FileStat, String>,
    mode: Option<Result<u32, String>>,
) -> Option<Seq<char>> {
    if file_problem(path, "private key"@, stat) is Some {
        file_problem(path, "private key"@, stat)
    } else {
        match mode {
            None => None,
            Some(Err(error)) => Some(lookup_failure("private key"@, path, error@)),
            Some(Ok(bits)) => if shared_access(bits) {
                Some("private key file permissions allow group or other access; use chmod 600"@)
            } else {
                None
            },
        }
    }
}

/// Whether permission bits grant the group (the second-lowest octal digit) or others (the
/// lowest octal digit) some access.
pub open spec fn group_or_other_access(mode: u32) -> bool {
    (mode / 8) % 8 != 0 || mode % 8 != 0
}

/// The shared-access test is exactly "the group or others have some access": the owner's
/// bits and the file-type bits above them never matter.
pub proof fn lemma_shared_access_digits(mode: u32)
    ensures
        shared_access(mode) <==> group_or_other_access(mode),
{
    assert((mode & 0o077u32 != 0) <==> ((mode / 8) % 8 != 0 || mode % 8 != 0)) by (bit_vector);
}

/// A file lookup that found a non-empty regular file.
pub open spec fn nonempty_regular(stat: Result<FileStat, String>) -> bool {
    stat matches Ok(st) && st.is_file && st.len > 0
}

/// A file passes the non-empty regular file check exactly when the lookup found one.
pub proof fn lemma_file_acceptance(path: Seq<u8>, label: Seq<char>, stat: Result<FileStat, String>)
    ensures
        file_problem(path, label, stat) is None <==> nonempty_regular(stat),
{
}

/// The private key files that are accepted: a non-empty regular file whose permission
/// bits, where the platform has them and they could be read, give the group and others
/// no access at all, whatever the owner's bits are.
pub open spec fn key_file_accepted(
    stat: Result<FileStat, String>,
    mode: Option<Result<u32, String>>,
) -> bool {
    &&& nonempty_regular(stat)
    &&& match mode {
        None => true,
        Some(Ok(bits)) => !group_or_other_access(bits),
        Some(Err(_)) => false,
    }
}

/// The private key passes its check exactly when it is one of the accepted key files.
pub proof fn lemma_private_key_acceptance(
    path: Seq<u8>,
    stat: Result<FileStat, String>,
    mode: Option<Result<u32, String>>,
)
    ensures
        private_key_problem(path, stat, mode) is None <==> key_file_accepted(stat, mode),
{
    if let Some(Ok(bits)) = mode {
        lemma_shared_access_digits(bits);
    }
}

/// Checks the private key file, from what looking it up and reading its permission bits
/// gave.
pub fn private_key_file(path: &[u8], stat: &Result<FileStat, String>, mode: &Option<Result<u32, String>>) -> (r: Result<(), AppError>)
    ensures
        verdict(r, private_key_problem(path@, *stat, *mode)),
{
    nonempty_regular_file(path, "private key", stat)?;
    match mode {
        None => Ok(()),
        Some(Err(error)) => Err(
            AppError::Validation(lookup_failure_text("private key", path, error)),
        ),
        Some(Ok(bits)) => {
            if *bits & 0o077u32 != 0 {
                return Err(
                    invalid(
                        "private key file permissions allow group or other access; use chmod 600",
                    ),
                );
            }
            Ok(())
        },
    }
}

} // verus!
