//! How a POSIX shell reads a command line into words, for the part of the shell
//! language that the remote command uses: single quotes, backslash escapes,
//! unquoted characters that are never special, and single spaces between words.

use vstd::prelude::*;
use crate::text::is_ascii_alnum;

verus! {

/// `s` with every `from` replaced by `to` (what `str::replace` with a `char` pattern gives).
pub open spec fn replace_char(s: Seq<char>, from: char, to: Seq<char>) -> Seq<char>
    decreases s.len(),
{
    if s.len() == 0 {
        Seq::empty()
    } else {
        (if s[0] == from { to } else { seq![s[0]] }) + replace_char(s.drop_first(), from, to)
    }
}

/// What stands for one single quote inside a single-quoted word: close the quotes,
/// an escaped quote, open the quotes again.
pub open spec fn quote_replacement() -> Seq<char> {
    seq!['\'', '\\', '\'', '\'']
}

/// `s` as one single-quoted shell word.
pub open spec fn escaped(s: Seq<char>) -> Seq<char> {
    seq!['\''] + replace_char(s, '\'', quote_replacement()) + seq!['\'']
}

/// Characters that no POSIX shell treats specially outside quotes.
pub open spec fn is_plain_shell_char(c: char) -> bool {
    is_ascii_alnum(c) || c == '/' || c == '_' || c == '.' || c == '-' || c == ',' || c == ':'
        || c == '@' || c == '+'
}

/// A non-empty text of plain characters only: a shell reads it as itself.
pub open spec fn is_plain_word(s: Seq<char>) -> bool {
    s.len() > 0 && forall|i: int| 0 <= i < s.len() ==> is_plain_shell_char(#[trigger] s[i])
}

pub open spec fn word_so_far(word: Option<Seq<char>>) -> Seq<char> {
    match word {
        Some(w) => w,
        None => Seq::empty(),
    }
}

/// The words a shell reads from `t`, given whether it is inside single quotes and the
/// word read so far (`None` between words). `None` where `t` uses anything this model
/// does not cover, or leaves a quote open.
pub open spec fn shell_words_from(t: Seq<char>, quoted: bool, word: Option<Seq<char>>) -> Option<
    Seq<Seq<char>>,
>
    decreases t.len(),
{
    if t.len() == 0 {
        if quoted {
            None
        } else {
            match word {
                Some(w) => Some(seq![w]),
                None => Some(Seq::empty()),
            }
        }
    } else {
        let c = t[0];
        let rest = t.drop_first();
        let cur = word_so_far(word);
        if quoted {
            if c == '\'' {
                shell_words_from(rest, false, word)
            } else {
                shell_words_from(rest, true, Some(cur.push(c)))
            }
        } else if c == '\'' {
            shell_words_from(rest, true, Some(cur))
        } else if c == ' ' {
            match word {
                None => shell_words_from(rest, false, None),
                Some(w) => match shell_words_from(rest, false, None) {
                    Some(ws) => Some(seq![w] + ws),
                    None => None,
                },
            }
        } else if c == '\\' {
            if rest.len() == 0 {
                None
            } else if rest[0] == '\n' {
                shell_words_from(rest.drop_first(), false, word)
            } else {
                shell_words_from(rest.drop_first(), false, Some(cur.push(rest[0])))
            }
        } else if is_plain_shell_char(c) {
            shell_words_from(rest, false, Some(cur.push(c)))
        } else {
            None
        }
    }
}

/// The words a shell reads from a whole command line.
pub open spec fn shell_words(t: Seq<char>) -> Option<Seq<Seq<char>>> {
    shell_words_from(t, false, None)
}

/// Texts joined with single spaces (what `[String]::join(" ")` gives).
pub open spec fn join_words(ws: Seq<Seq<char>>) -> Seq<char>
    decreases ws.len(),
{
    if ws.len() == 0 {
        Seq::empty()
    } else if ws.len() == 1 {
        ws[0]
    } else {
        ws[0] + seq![' '] + join_words(ws.drop_first())
    }
}

/// One more word at the end adds a space and the word.
pub proof fn lemma_join_push(ws: Seq<Seq<char>>, w: Seq<char>)
    requires
        ws.len() > 0,
    ensures
        join_words(ws.push(w)) == join_words(ws) + seq![' '] + w,
    decreases ws.len(),
{
    if ws.len() == 1 {
        assert(ws.push(w).drop_first() =~= seq![w]);
        assert(join_words(seq![w]) == w);
    } else {
        lemma_join_push(ws.drop_first(), w);
        assert(ws.push(w).drop_first() =~= ws.drop_first().push(w));
        assert(ws.push(w)[0] == ws[0]);
        assert(join_words(ws.push(w)) =~= ws[0] + seq![' '] + join_words(ws.drop_first().push(w)));
    }
}

/// Replacing characters distributes over concatenation.
pub proof fn lemma_replace_concat(a: Seq<char>, b: Seq<char>, from: char, to: Seq<char>)
    ensures
        replace_char(a + b, from, to) == replace_char(a, from, to) + replace_char(b, from, to),
    decreases a.len(),
{
    if a.len() == 0 {
        assert(a + b =~= b);
    } else {
        lemma_replace_concat(a.drop_first(), b, from, to);
        assert((a + b).drop_first() =~= a.drop_first() + b);
        assert((a + b)[0] == a[0]);
    }
}

/// Replacing in a one-character text.
pub proof fn lemma_replace_single(c: char, from: char, to: Seq<char>)
    ensures
        replace_char(seq![c], from, to) == (if c == from { to } else { seq![c] }),
{
    let one = seq![c];
    assert(one.drop_first() =~= Seq::<char>::empty());
    assert(replace_char(Seq::<char>::empty(), from, to) == Seq::<char>::empty());
    assert(one[0] == c);
    let head = if c == from { to } else { seq![c] };
    assert(replace_char(one, from, to) == head + replace_char(one.drop_first(), from, to));
    assert(head + Seq::<char>::empty() =~= head);
}

/// Inside single quotes, the replaced text followed by the closing quote adds the
/// unquoted text to the word.
proof fn lemma_quoted_body(s: Seq<char>, r: Seq<char>, w: Seq<char>)
    ensures
        shell_words_from(
            replace_char(s, '\'', quote_replacement()) + seq!['\''] + r,
            true,
            Some(w),
        ) == shell_words_from(r, false, Some(w + s)),
    decreases s.len(),
{
    let t = replace_char(s, '\'', quote_replacement()) + seq!['\''] + r;
    if s.len() == 0 {
        assert(t =~= seq!['\''] + r);
        assert(t.drop_first() =~= r);
        assert(w + s =~= w);
    } else {
        let x = replace_char(s.drop_first(), '\'', quote_replacement()) + seq!['\''] + r;
        lemma_quoted_body(s.drop_first(), r, w.push(s[0]));
        assert(w.push(s[0]) + s.drop_first() =~= w + s);
        if s[0] == '\'' {
            assert(t =~= quote_replacement() + x);
            assert(t[0] == '\'');
            let t1 = t.drop_first();
            assert(t1 =~= seq!['\\', '\'', '\''] + x);
            assert(t1[0] == '\\');
            assert(t1.drop_first()[0] == '\'');
            let t3 = t1.drop_first().drop_first();
            assert(t3 =~= seq!['\''] + x);
            assert(t3[0] == '\'');
            assert(t3.drop_first() =~= x);
            assert(word_so_far(Some(w)) == w);
            assert(shell_words_from(t, true, Some(w)) == shell_words_from(t1, false, Some(w)));
            assert(shell_words_from(t1, false, Some(w)) == shell_words_from(
                t3,
                false,
                Some(w.push('\'')),
            ));
            assert(shell_words_from(t3, false, Some(w.push('\''))) == shell_words_from(
                x,
                true,
                Some(w.push('\'')),
            ));
        } else {
            assert(t =~= seq![s[0]] + x);
            assert(t[0] == s[0]);
            assert(t.drop_first() =~= x);
        }
    }
}

/// A single-quoted word adds the unquoted text to the word being read.
pub proof fn lemma_escaped_word(s: Seq<char>, r: Seq<char>, word: Option<Seq<char>>)
    ensures
        shell_words_from(escaped(s) + r, false, word) == shell_words_from(
            r,
            false,
            Some(word_so_far(word) + s),
        ),
{
    let body = replace_char(s, '\'', quote_replacement());
    let t = escaped(s) + r;
    assert(t =~= seq!['\''] + (body + seq!['\''] + r));
    assert(t[0] == '\'');
    assert(t.drop_first() =~= body + seq!['\''] + r);
    lemma_quoted_body(s, r, word_so_far(word));
}

/// A plain text adds itself to the word being read.
pub proof fn lemma_plain_word(p: Seq<char>, r: Seq<char>, word: Option<Seq<char>>)
    requires
        is_plain_word(p),
    ensures
        shell_words_from(p + r, false, word) == shell_words_from(
            r,
            false,
            Some(word_so_far(word) + p),
        ),
    decreases p.len(),
{
    let t = p + r;
    assert(t[0] == p[0]);
    assert(is_plain_shell_char(p[0]));
    assert(t.drop_first() =~= p.drop_first() + r);
    let w1 = word_so_far(word).push(p[0]);
    if p.len() == 1 {
        assert(p.drop_first() + r =~= r);
        assert(w1 =~= word_so_far(word) + p);
    } else {
        assert forall|i: int| 0 <= i < p.drop_first().len() implies is_plain_shell_char(
            #[trigger] p.drop_first()[i],
        ) by {
            assert(p.drop_first()[i] == p[i + 1]);
        }
        lemma_plain_word(p.drop_first(), r, Some(w1));
        assert(w1 + p.drop_first() =~= word_so_far(word) + p);
    }
}

/// How a piece of the command line stands for one argument: quoted, or plain.
pub open spec fn stands_for(piece: Seq<char>, value: Seq<char>) -> bool {
    piece == escaped(value) || (piece == value && is_plain_word(value))
}

/// A shell reads words joined by single spaces back as the arguments they stand for.
pub proof fn lemma_joined_words(pieces: Seq<Seq<char>>, values: Seq<Seq<char>>)
    requires
        pieces.len() > 0,
        pieces.len() == values.len(),
        forall|i: int| 0 <= i < pieces.len() ==> stands_for(#[trigger] pieces[i], values[i]),
    ensures
        shell_words(join_words(pieces)) == Some(values),
    decreases pieces.len(),
{
    let p0 = pieces[0];
    let v0 = values[0];
    assert(stands_for(pieces[0], values[0]));
    if pieces.len() == 1 {
        assert(join_words(pieces) == p0);
        if p0 == escaped(v0) {
            lemma_escaped_word(v0, Seq::empty(), None);
            assert(p0 + Seq::<char>::empty() =~= p0);
        } else {
            lemma_plain_word(v0, Seq::empty(), None);
            assert(p0 + Seq::<char>::empty() =~= p0);
        }
        assert(Seq::<char>::empty() + v0 =~= v0);
        assert(values =~= seq![v0]);
    } else {
        let rest = join_words(pieces.drop_first());
        let tail = seq![' '] + rest;
        assert(join_words(pieces) =~= p0 + tail);
        if p0 == escaped(v0) {
            lemma_escaped_word(v0, tail, None);
        } else {
            lemma_plain_word(v0, tail, None);
        }
        assert(Seq::<char>::empty() + v0 =~= v0);
        assert(tail[0] == ' ');
        assert(tail.drop_first() =~= rest);
        assert forall|i: int| 0 <= i < pieces.drop_first().len() implies stands_for(
            #[trigger] pieces.drop_first()[i],
            values.drop_first()[i],
        ) by {
            assert(stands_for(pieces[i + 1], values[i + 1]));
        }
        lemma_joined_words(pieces.drop_first(), values.drop_first());
        assert(seq![v0] + values.drop_first() =~= values);
    }
}

/// Whatever text is quoted, a shell reads the quoted form back as exactly that text,
/// as one word.
pub proof fn lemma_escaped_round_trip(s: Seq<char>)
    ensures
        shell_words(escaped(s)) == Some(seq![s]),
{
    lemma_escaped_word(s, Seq::empty(), None);
    assert(escaped(s) + Seq::<char>::empty() =~= escaped(s));
    assert(Seq::<char>::empty() + s =~= s);
}

} // verus!
