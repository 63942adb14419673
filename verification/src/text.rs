//! Character classes and the whitespace normalisation of trigger texts.

use vstd::prelude::*;

verus! {

/// Characters with the Unicode `White_Space` property, which is what
/// `char::is_whitespace` (and so `str::split_whitespace`) tests for.
pub open spec fn is_ws(c: char) -> bool {
    ||| '\u{9}' <= c <= '\u{d}'
    ||| c == ' '
    ||| c == '\u{85}'
    ||| c == '\u{a0}'
    ||| c == '\u{1680}'
    ||| '\u{2000}' <= c <= '\u{200a}'
    ||| c == '\u{2028}'
    ||| c == '\u{2029}'
    ||| c == '\u{202f}'
    ||| c == '\u{205f}'
    ||| c == '\u{3000}'
}

/// Whether `c` has the Unicode `White_Space` property.
pub fn is_whitespace(c: char) -> (r: bool)
    ensures
        r == is_ws(c),
{
    ('\u{9}' <= c && c <= '\u{d}') || c == ' ' || c == '\u{85}' || c == '\u{a0}' || c
        == '\u{1680}' || ('\u{2000}' <= c && c <= '\u{200a}') || c == '\u{2028}' || c
        == '\u{2029}' || c == '\u{202f}' || c == '\u{205f}' || c == '\u{3000}'
}

/// Characters that Unicode classes as letters or decimal digits and that the
/// keyboard layouts produce: ASCII letters and digits, the Russian alphabet.
pub open spec fn known_alphanumeric(c: char) -> bool {
    ||| 'a' <= c <= 'z'
    ||| 'A' <= c <= 'Z'
    ||| '0' <= c <= '9'
    ||| 'а' <= c <= 'я'
    ||| 'А' <= c <= 'Я'
    ||| c == 'ё'
    ||| c == 'Ё'
}

/// Characters that are neither alphabetic nor numeric in Unicode: whitespace
/// and the ASCII punctuation of the keyboard's letter and digit rows.
pub open spec fn known_not_alphanumeric(c: char) -> bool {
    ||| is_ws(c)
    ||| c == ','
    ||| c == '.'
    ||| c == ';'
    ||| c == '\''
    ||| c == '['
    ||| c == ']'
    ||| c == '`'
    ||| c == '/'
    ||| c == '-'
    ||| c == '='
    ||| c == '\\'
}

/// Whether `c` is alphabetic or numeric in the sense of Unicode, for the
/// characters not classed above; the answer comes from the standard
/// library's Unicode tables.
pub uninterp spec fn unicode_alphanumeric(c: char) -> bool;

/// Whether `c` is alphabetic or numeric (Unicode `Alphabetic`, or a general
/// category `Nd`, `Nl`, `No`).
pub open spec fn alphanumeric(c: char) -> bool {
    known_alphanumeric(c) || (!known_not_alphanumeric(c) && unicode_alphanumeric(c))
}

/// `char::is_alphanumeric` (`is_alphabetic() || is_numeric()`). Stated: ASCII
/// letters and digits and the Russian letters are alphanumeric; whitespace
/// and the ASCII punctuation `, . ; ' [ ] \` / - = \\` are not. Not stated: the
/// Unicode tables for other characters, which are the name
/// `unicode_alphanumeric` of the character.
#[verifier::external_body]
pub(crate) fn is_alphanumeric(c: char) -> (r: bool)
    ensures
        r == (known_alphanumeric(c) || (!known_not_alphanumeric(c) && unicode_alphanumeric(c))),
{
    c.is_alphanumeric()
}

/// The lower-case form of a text, by Unicode's case mapping (what
/// `str::to_lowercase` returns); its tables are not restated.
pub uninterp spec fn lower_case(s: Seq<char>) -> Seq<char>;

/// `str::to_lowercase`: the text with every character mapped to lower case.
/// The result is the name `lower_case` of the text.
#[verifier::external_body]
pub(crate) fn to_lower_case(s: &str) -> (r: String)
    ensures
        r@ == lower_case(s@),
{
    s.to_lowercase()
}

/// The number of bytes `c` takes in UTF-8.
pub open spec fn utf8_width(c: char) -> nat {
    if (c as u32) < 0x80 {
        1
    } else if (c as u32) < 0x800 {
        2
    } else if (c as u32) < 0x10000 {
        3
    } else {
        4
    }
}

/// The number of bytes the characters `s` take in UTF-8 (a `str`'s `len`).
pub open spec fn utf8_len(s: Seq<char>) -> nat
    decreases s.len(),
{
    if s.len() == 0 {
        0
    } else {
        utf8_len(s.drop_last()) + utf8_width(s.last())
    }
}

/// The byte length of `s` in UTF-8.
pub fn utf8_byte_len(s: &Vec<char>) -> (n: u128)
    ensures
        n == utf8_len(s@),
{
    let mut n: u128 = 0;
    let mut i: usize = 0;
    while i < s.len()
        invariant
            i <= s.len(),
            n == utf8_len(s@.take(i as int)),
            n <= 4 * i,
        decreases s.len() - i,
    {
        let v: u32 = s[i] as u32;
        let w: u128 = if v < 0x80 {
            1
        } else if v < 0x800 {
            2
        } else if v < 0x10000 {
            3
        } else {
            4
        };
        assert(s@.take(i + 1).drop_last() =~= s@.take(i as int));
        n = n + w;
        i = i + 1;
    }
    assert(s@.take(s.len() as int) =~= s@);
    n
}

/// The maximal runs of non-whitespace characters of `s`, in order: what
/// `str::split_whitespace` yields.
pub open spec fn words(s: Seq<char>) -> Seq<Seq<char>>
    decreases s.len(),
{
    if s.len() == 0 {
        seq![]
    } else {
        let init = words(s.drop_last());
        let c = s.last();
        if is_ws(c) {
            init
        } else if s.len() >= 2 && !is_ws(s[s.len() - 2]) && init.len() > 0 {
            init.update(init.len() - 1, init.last().push(c))
        } else {
            init.push(seq![c])
        }
    }
}

/// The pieces of `ws` joined with single spaces: what `join(" ")` yields.
pub open spec fn join_spaced(ws: Seq<Seq<char>>) -> Seq<char>
    decreases ws.len(),
{
    if ws.len() == 0 {
        seq![]
    } else if ws.len() == 1 {
        ws[0]
    } else {
        join_spaced(ws.drop_last()) + seq![' '] + ws.last()
    }
}

/// A trigger text with its whitespace normalised: the words of `s` joined
/// with single spaces (no leading, trailing or repeated whitespace).
pub open spec fn normalize(s: Seq<char>) -> Seq<char> {
    join_spaced(words(s))
}

/// A non-empty text whose last character is not whitespace has a word.
pub proof fn lemma_words_nonempty(s: Seq<char>)
    requires
        s.len() > 0,
        !is_ws(s.last()),
    ensures
        words(s).len() > 0,
{
}

/// Extending the last piece by one character extends the joined text by it.
proof fn lemma_join_extend_last(ws: Seq<Seq<char>>, c: char)
    requires
        ws.len() > 0,
    ensures
        join_spaced(ws.update(ws.len() - 1, ws.last().push(c))) == join_spaced(ws).push(c),
{
    let ws2 = ws.update(ws.len() - 1, ws.last().push(c));
    if ws.len() == 1 {
        assert(ws2[0] == ws[0].push(c));
    } else {
        assert(ws2.drop_last() =~= ws.drop_last());
        assert(join_spaced(ws2) =~= join_spaced(ws).push(c));
    }
}

/// Adding a piece adds a separating space (when something came before) and it.
proof fn lemma_join_push(ws: Seq<Seq<char>>, w: Seq<char>)
    ensures
        join_spaced(ws.push(w)) == if ws.len() == 0 {
            w
        } else {
            join_spaced(ws) + seq![' '] + w
        },
{
    assert(ws.push(w).drop_last() =~= ws);
}

/// A non-empty run of non-whitespace characters.
pub open spec fn is_token(w: Seq<char>) -> bool {
    w.len() > 0 && forall|k: int| 0 <= k < w.len() ==> !is_ws(#[trigger] w[k])
}

/// Text whose only whitespace is single spaces with non-whitespace on both
/// sides (so none at the start or the end).
pub open spec fn is_spaced_text(t: Seq<char>) -> bool {
    forall|k: int|
        0 <= k < t.len() && is_ws(#[trigger] t[k]) ==> t[k] == ' ' && 0 < k < t.len() - 1 && !is_ws(
            t[k - 1],
        ) && !is_ws(t[k + 1])
}

/// The words of a text are tokens.
pub proof fn lemma_words_are_tokens(s: Seq<char>)
    ensures
        forall|i: int| 0 <= i < words(s).len() ==> is_token(#[trigger] words(s)[i]),
    decreases s.len(),
{
    if s.len() > 0 {
        lemma_words_are_tokens(s.drop_last());
        let init = words(s.drop_last());
        let c = s.last();
        if !is_ws(c) {
            if s.len() >= 2 && !is_ws(s[s.len() - 2]) && init.len() > 0 {
                let w = init.last().push(c);
                assert(is_token(init[init.len() - 1]));
                assert(is_token(w));
                assert forall|i: int| 0 <= i < words(s).len() implies is_token(#[trigger] words(s)[i]) by {
                    if i < init.len() - 1 {
                        assert(words(s)[i] == init[i]);
                    }
                }
            } else {
                assert(is_token(seq![c]));
                assert forall|i: int| 0 <= i < words(s).len() implies is_token(#[trigger] words(s)[i]) by {
                    if i < init.len() {
                        assert(words(s)[i] == init[i]);
                    }
                }
            }
        }
    }
}

/// Tokens joined with single spaces form spaced text that starts and ends
/// with a non-whitespace character.
pub proof fn lemma_join_tokens(ws: Seq<Seq<char>>)
    requires
        forall|i: int| 0 <= i < ws.len() ==> is_token(#[trigger] ws[i]),
    ensures
        is_spaced_text(join_spaced(ws)),
        ws.len() > 0 ==> join_spaced(ws).len() > 0 && !is_ws(join_spaced(ws)[0]) && !is_ws(
            join_spaced(ws).last(),
        ),
        ws.len() == 0 ==> join_spaced(ws).len() == 0,
    decreases ws.len(),
{
    if ws.len() == 1 {
        assert(is_token(ws[0]));
    } else if ws.len() >= 2 {
        let init = ws.drop_last();
        assert forall|i: int| 0 <= i < init.len() implies is_token(#[trigger] init[i]) by {
            assert(init[i] == ws[i]);
        }
        lemma_join_tokens(init);
        let a = join_spaced(init);
        let b = ws.last();
        assert(is_token(ws[ws.len() - 1]));
        let j = a + seq![' '] + b;
        assert(join_spaced(ws) == j);
        assert forall|k: int| 0 <= k < j.len() && is_ws(#[trigger] j[k]) implies j[k] == ' ' && 0 < k
            < j.len() - 1 && !is_ws(j[k - 1]) && !is_ws(j[k + 1]) by {
            if k < a.len() {
                assert(j[k] == a[k]);
                assert(is_ws(a[k]));
                assert(j[k - 1] == a[k - 1]);
                assert(j[k + 1] == a[k + 1]);
            } else if k == a.len() {
                assert(j[k - 1] == a.last());
                assert(j[k + 1] == b[0]);
            } else {
                assert(j[k] == b[k - a.len() - 1]);
            }
        }
        assert(j[0] == a[0]);
        assert(j.last() == b.last());
    }
}

/// Law: a normalised text is spaced text: no whitespace but single spaces
/// between words, none at either end; it is empty only for blank input.
pub proof fn law_normalize_is_spaced(s: Seq<char>)
    ensures
        is_spaced_text(normalize(s)),
        normalize(s).len() == 0 <==> words(s).len() == 0,
{
    lemma_words_are_tokens(s);
    lemma_join_tokens(words(s));
}

/// The whitespace-normalised form of `s`, as a vector of characters.
pub fn normalize_text(s: &str) -> (r: Vec<char>)
    ensures
        r@ == normalize(s@),
{
    let n = s.unicode_len();
    let mut out: Vec<char> = Vec::new();
    let mut in_word = false;
    let mut any_word = false;
    let mut i: usize = 0;
    while i < n
        invariant
            n == s@.len(),
            i <= n,
            out@ == join_spaced(words(s@.take(i as int))),
            in_word == (i > 0 && !is_ws(s@[i - 1])),
            any_word == (words(s@.take(i as int)).len() > 0),
        decreases n - i,
    {
        let c = s.get_char(i);
        let ghost pre = s@.take(i as int);
        let ghost post = s@.take(i + 1);
        assert(post.drop_last() =~= pre);
        assert(post.last() == c);
        if is_whitespace(c) {
            in_word = false;
        } else {
            if in_word {
                assert(post[post.len() - 2] == s@[i - 1]);
                proof {
                    lemma_words_nonempty(pre);
                    lemma_join_extend_last(words(pre), c);
                }
                out.push(c);
            } else {
                proof {
                    lemma_join_push(words(pre), seq![c]);
                }
                if any_word {
                    out.push(' ');
                }
                out.push(c);
                assert(out@ =~= join_spaced(words(post)));
            }
            in_word = true;
            any_word = true;
        }
        i = i + 1;
    }
    assert(s@.take(n as int) =~= s@);
    out
}

} // verus!
