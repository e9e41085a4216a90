//! Text helpers: the characters of a string, lower case, the
//! lexicographic order, whitespace tokens and substring search.

use crate::seqs::{lemma_views_push, views};
use vstd::prelude::*;

verus! {

/// The characters of `s`, in order.
pub fn chars_of(s: &str) -> (out: Vec<char>)
    ensures
        out@ == s@,
{
    let mut out: Vec<char> = Vec::new();
    for c in it: s.chars()
        invariant
            it.seq() == s@,
            out@ == s@.take(it.index() as int),
    {
        out.push(c);
        proof {
            let i = it.index() as int;
            assert(s@.take(i + 1) =~= s@.take(i).push(s@[i]));
        }
    }
    proof {
        assert(s@.take(s@.len() as int) =~= s@);
    }
    out
}

/// A string made of the characters of `chars`, in order. The body hands the
/// characters to std's `String::from_iter`, which collects them unchanged.
#[verifier::external_body]
pub(crate) fn string_of(chars: &Vec<char>) -> (out: String)
    ensures
        out@ == chars@,
{
    String::from_iter(chars.iter())
}

/// The lower-case form of a text: what std's `str::to_lowercase` makes of
/// it, each character in the lower case that Unicode gives it.
pub uninterp spec fn lower(s: Seq<char>) -> Seq<char>;

/// The lower-case form of `s`. The body calls std's `str::to_lowercase`,
/// which returns the lower-case equivalent of the text as Unicode defines
/// it; that depends on the characters of `s` alone.
#[verifier::external_body]
pub(crate) fn lower_text(s: &str) -> (out: String)
    ensures
        out@ == lower(s@),
{
    s.to_lowercase()
}

/// `s` in lower case.
pub fn to_lower(s: &Vec<char>) -> (out: Vec<char>)
    ensures
        out@ == lower(s@),
{
    let text = string_of(s);
    let low = lower_text(text.as_str());
    chars_of(low.as_str())
}

/// The strict lexicographic order on character sequences, read from index
/// `from` on: the first position where the two differ decides, and a
/// sequence that ends there comes before one that goes on.
pub open spec fn lex_less_from(a: Seq<char>, b: Seq<char>, from: int) -> bool
    decreases a.len() - from,
{
    if from < 0 || from >= b.len() {
        false
    } else if from >= a.len() {
        true
    } else if a[from] != b[from] {
        a[from] < b[from]
    } else {
        lex_less_from(a, b, from + 1)
    }
}

/// `a` comes strictly before `b` in the lexicographic order by code point.
pub open spec fn lex_less(a: Seq<char>, b: Seq<char>) -> bool {
    lex_less_from(a, b, 0)
}

/// No text comes before itself.
pub proof fn lemma_lex_irreflexive(a: Seq<char>, from: int)
    requires
        0 <= from,
    ensures
        !lex_less_from(a, a, from),
    decreases a.len() - from,
{
    if from < a.len() {
        lemma_lex_irreflexive(a, from + 1);
    }
}

/// What comes before a text comes before what that text comes before.
pub proof fn lemma_lex_transitive(a: Seq<char>, b: Seq<char>, c: Seq<char>, from: int)
    requires
        0 <= from,
        lex_less_from(a, b, from),
        lex_less_from(b, c, from),
    ensures
        lex_less_from(a, c, from),
    decreases a.len() - from,
{
    if from < a.len() && a[from] == b[from] && b[from] == c[from] {
        lemma_lex_transitive(a, b, c, from + 1);
    }
}

/// If `a` is not before `b` and `b` is not before `c`, then `a` is not
/// before `c`: the order is total.
pub proof fn lemma_lex_negatively_transitive(a: Seq<char>, b: Seq<char>, c: Seq<char>, from: int)
    requires
        0 <= from,
        !lex_less_from(a, b, from),
        !lex_less_from(b, c, from),
    ensures
        !lex_less_from(a, c, from),
    decreases c.len() - from,
{
    if from < c.len() && from < b.len() && from < a.len() && a[from] == b[from] && b[from]
        == c[from] {
        lemma_lex_negatively_transitive(a, b, c, from + 1);
    }
}

/// Whether `a` comes strictly before `b` in the lexicographic order.
pub fn is_lex_less(a: &Vec<char>, b: &Vec<char>) -> (out: bool)
    ensures
        out == lex_less(a@, b@),
{
    let mut i: usize = 0;
    while i < a.len() && i < b.len()
        invariant
            i <= a.len(),
            i <= b.len(),
            lex_less(a@, b@) == lex_less_from(a@, b@, i as int),
        decreases a.len() - i,
    {
        if a[i] != b[i] {
            return a[i] < b[i];
        }
        i += 1;
    }
    i < b.len()
}

/// Whether `c` is white space: a character with the Unicode property
/// White_Space.
pub open spec fn is_space(c: char) -> bool {
    let n = c as u32;
    ||| 0x09 <= n <= 0x0d
    ||| n == 0x20
    ||| n == 0x85
    ||| n == 0xa0
    ||| n == 0x1680
    ||| 0x2000 <= n <= 0x200a
    ||| n == 0x2028
    ||| n == 0x2029
    ||| n == 0x202f
    ||| n == 0x205f
    ||| n == 0x3000
}

/// Whether `c` is white space.
pub fn is_space_char(c: char) -> (out: bool)
    ensures
        out == is_space(c),
{
    let n: u32 = c as u32;
    (0x09 <= n && n <= 0x0d) || n == 0x20 || n == 0x85 || n == 0xa0 || n == 0x1680 || (0x2000 <= n
        && n <= 0x200a) || n == 0x2028 || n == 0x2029 || n == 0x202f || n == 0x205f || n == 0x3000
}

/// The tokens of `s`: its maximal runs of characters that are not white
/// space, in order. Read from the left, a character either is white space
/// and adds nothing, or starts a new token, or extends the last one.
pub open spec fn tokens(s: Seq<char>) -> Seq<Seq<char>>
    decreases s.len(),
{
    if s.len() == 0 {
        Seq::empty()
    } else {
        let head = s.drop_last();
        let c = s.last();
        let before = tokens(head);
        if is_space(c) {
            before
        } else if head.len() == 0 || is_space(head.last()) || before.len() == 0 {
            before.push(seq![c])
        } else {
            before.drop_last().push(before.last().push(c))
        }
    }
}

/// A word: a non-empty run of characters without white space.
pub open spec fn is_word(t: Seq<char>) -> bool {
    &&& t.len() > 0
    &&& forall|j: int| 0 <= j < t.len() ==> !is_space(#[trigger] t[j])
}

/// Every token is a word, and a text that ends in a word character has a
/// last token.
pub proof fn lemma_tokens_are_words(s: Seq<char>)
    ensures
        forall|k: int| 0 <= k < tokens(s).len() ==> is_word(#[trigger] tokens(s)[k]),
        s.len() > 0 && !is_space(s.last()) ==> tokens(s).len() > 0,
    decreases s.len(),
{
    if s.len() > 0 {
        let head = s.drop_last();
        let c = s.last();
        let before = tokens(head);
        lemma_tokens_are_words(head);
        if is_space(c) {
        } else if head.len() == 0 || is_space(head.last()) || before.len() == 0 {
            assert forall|k: int| 0 <= k < tokens(s).len() implies is_word(
                #[trigger] tokens(s)[k],
            ) by {
                if k < before.len() {
                    assert(tokens(s)[k] == before[k]);
                } else {
                    assert(tokens(s)[k] == seq![c]);
                }
            }
        } else {
            assert forall|k: int| 0 <= k < tokens(s).len() implies is_word(
                #[trigger] tokens(s)[k],
            ) by {
                if k < before.len() - 1 {
                    assert(tokens(s)[k] == before[k]);
                } else {
                    assert(is_word(before[before.len() - 1]));
                    assert(tokens(s)[k] == before.last().push(c));
                }
            }
        }
    }
}

/// The tokens of `s`.
pub fn split_tokens(s: &Vec<char>) -> (out: Vec<Vec<char>>)
    ensures
        views(out@) == tokens(s@),
{
    let mut done: Vec<Vec<char>> = Vec::new();
    let mut word: Vec<char> = Vec::new();
    let mut i: usize = 0;
    proof {
        assert(views(done@) =~= tokens(s@.take(0)));
    }
    while i < s.len()
        invariant
            i <= s.len(),
            word@.len() == 0 ==> views(done@) == tokens(s@.take(i as int)),
            word@.len() == 0 ==> i == 0 || is_space(s@[i - 1]),
            word@.len() > 0 ==> views(done@).push(word@) == tokens(s@.take(i as int)),
            word@.len() > 0 ==> i > 0 && !is_space(s@[i - 1]),
        decreases s.len() - i,
    {
        let c = s[i];
        proof {
            let next = s@.take(i as int + 1);
            assert(next.drop_last() =~= s@.take(i as int));
            assert(next.last() == c);
            if i > 0 {
                assert(s@.take(i as int).last() == s@[i - 1]);
            }
        }
        if is_space_char(c) {
            if word.len() > 0 {
                proof {
                    lemma_views_push(done@, word);
                }
                done.push(word);
                word = Vec::new();
            }
        } else {
            proof {
                let before = tokens(s@.take(i as int));
                if word@.len() > 0 {
                    assert(before.drop_last() =~= views(done@));
                    assert(before.last() == word@);
                }
            }
            word.push(c);
            proof {
                if word@.len() == 1 {
                    assert(word@ =~= seq![c]);
                }
            }
        }
        i += 1;
    }
    proof {
        assert(s@.take(s.len() as int) =~= s@);
    }
    if word.len() > 0 {
        proof {
            lemma_views_push(done@, word);
        }
        done.push(word);
    }
    done
}

/// Whether `needle` occurs in `hay` at offset `at`.
pub open spec fn occurs_at(hay: Seq<char>, needle: Seq<char>, at: int) -> bool {
    &&& 0 <= at
    &&& at + needle.len() <= hay.len()
    &&& hay.subrange(at, at + needle.len()) == needle
}

/// Whether `needle` is a substring of `hay`.
pub open spec fn contains(hay: Seq<char>, needle: Seq<char>) -> bool {
    exists|at: int| occurs_at(hay, needle, at)
}

fn matches_at(hay: &Vec<char>, needle: &Vec<char>, at: usize) -> (out: bool)
    requires
        at + needle.len() <= hay.len(),
    ensures
        out == occurs_at(hay@, needle@, at as int),
{
    let mut j: usize = 0;
    while j < needle.len()
        invariant
            j <= needle.len(),
            at + needle.len() <= hay.len(),
            forall|k: int| 0 <= k < j ==> hay@[at + k] == needle@[k],
        decreases needle.len() - j,
    {
        if hay[at + j] != needle[j] {
            proof {
                let window = hay@.subrange(at as int, at + needle.len());
                assert(window[j as int] == hay@[at + j]);
            }
            return false;
        }
        j += 1;
    }
    proof {
        assert(hay@.subrange(at as int, at + needle.len()) =~= needle@);
    }
    true
}

/// Whether `needle` is a substring of `hay`.
pub fn has_substring(hay: &Vec<char>, needle: &Vec<char>) -> (out: bool)
    ensures
        out == contains(hay@, needle@),
{
    if needle.len() > hay.len() {
        return false;
    }
    let last: usize = hay.len() - needle.len();
    let mut at: usize = 0;
    loop
        invariant
            last == hay.len() - needle.len(),
            at <= last,
            forall|k: int| 0 <= k < at ==> !occurs_at(hay@, needle@, k),
        decreases last - at,
    {
        if matches_at(hay, needle, at) {
            return true;
        }
        if at == last {
            return false;
        }
        at += 1;
    }
}

/// The decimal digits of `n`, the highest first.
pub open spec fn decimal_text(n: nat) -> Seq<char>
    decreases n,
{
    if n < 10 {
        seq![(n + 48) as char]
    } else {
        decimal_text(n / 10).push((n % 10 + 48) as char)
    }
}

/// The decimal digits of `n`.
pub fn decimal(n: u64) -> (out: Vec<char>)
    ensures
        out@ == decimal_text(n as nat),
    decreases n,
{
    if n < 10 {
        let mut out: Vec<char> = Vec::new();
        out.push((n as u8 + 48) as char);
        proof {
            assert(out@ =~= seq![(n + 48) as char]);
        }
        out
    } else {
        let mut out = decimal(n / 10);
        out.push(((n % 10) as u8 + 48) as char);
        out
    }
}

/// The decimal form of a whole number: its digits, after a `-` where it is
/// negative.
pub open spec fn number_text(n: int) -> Seq<char> {
    if n < 0 {
        seq!['-'] + decimal_text((-n) as nat)
    } else {
        decimal_text(n as nat)
    }
}

/// The decimal form of `n`.
pub fn number(n: i64) -> (out: Vec<char>)
    ensures
        out@ == number_text(n as int),
{
    if n < 0 {
        let digits = decimal((-(n as i128)) as u64);
        let mut out: Vec<char> = Vec::new();
        out.push('-');
        let mut i: usize = 0;
        while i < digits.len()
            invariant
                i <= digits.len(),
                out@ == seq!['-'] + digits@.take(i as int),
            decreases digits.len() - i,
        {
            out.push(digits[i]);
            proof {
                assert(digits@.take(i as int + 1) =~= digits@.take(i as int).push(
                    digits@[i as int],
                ));
                assert(out@ =~= seq!['-'] + digits@.take(i as int + 1));
            }
            i += 1;
        }
        proof {
            assert(digits@.take(digits.len() as int) =~= digits@);
        }
        out
    } else {
        decimal(n as u64)
    }
}

/// The texts of `parts` one after the other, with a space between each
/// two.
pub open spec fn spaced(parts: Seq<Seq<char>>) -> Seq<char>
    decreases parts.len(),
{
    if parts.len() == 0 {
        Seq::empty()
    } else if parts.len() == 1 {
        parts[0]
    } else {
        spaced(parts.drop_last()) + seq![' '] + parts.last()
    }
}

/// The texts of `parts` with a space between each two.
pub fn join_spaced(parts: &Vec<Vec<char>>) -> (out: Vec<char>)
    ensures
        out@ == spaced(views(parts@)),
{
    let ghost all = views(parts@);
    let mut out: Vec<char> = Vec::new();
    let mut i: usize = 0;
    proof {
        assert(all.take(0) =~= Seq::empty());
    }
    while i < parts.len()
        invariant
            i <= parts.len(),
            all == views(parts@),
            out@ == spaced(all.take(i as int)),
        decreases parts.len() - i,
    {
        let ghost before = out@;
        proof {
            assert(all.take(i as int + 1).drop_last() =~= all.take(i as int));
            assert(all.take(i as int + 1).last() == parts@[i as int]@);
        }
        if i > 0 {
            out.push(' ');
        }
        let part = &parts[i];
        let mut j: usize = 0;
        let ghost stem = out@;
        while j < part.len()
            invariant
                j <= part.len(),
                out@ == stem + part@.take(j as int),
            decreases part.len() - j,
        {
            out.push(part[j]);
            proof {
                assert(part@.take(j as int + 1) =~= part@.take(j as int).push(part@[j as int]));
                assert(out@ =~= stem + part@.take(j as int + 1));
            }
            j += 1;
        }
        proof {
            assert(part@.take(part.len() as int) =~= part@);
            if i == 0 {
                assert(stem + part@ =~= part@);
            } else {
                assert(stem =~= before + seq![' ']);
            }
        }
        i += 1;
    }
    proof {
        assert(all.take(parts.len() as int) =~= all);
    }
    out
}

} // verus!
