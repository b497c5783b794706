//! Character-level helpers shared by the codec: reading the characters of a
//! string, splitting a line into tokens, and ASCII case folding.

use vstd::prelude::*;
use vstd::string::*;

verus! {

/// ASCII whitespace: space, tab, line feed, form feed and carriage return.
pub open spec fn is_space(c: char) -> bool {
    c == ' ' || c == '\t' || c == '\n' || c == '\r' || c == '\u{c}'
}

/// Number of leading characters of `s` up to the first whitespace.
pub open spec fn word_len(s: Seq<char>) -> nat
    decreases s.len(),
{
    if s.len() == 0 || is_space(s[0]) {
        0
    } else {
        1 + word_len(s.drop_first())
    }
}

/// The maximal runs of non-whitespace characters of `s`, in order.
pub open spec fn tokens(s: Seq<char>) -> Seq<Seq<char>>
    decreases s.len(),
{
    if s.len() == 0 {
        Seq::empty()
    } else if is_space(s[0]) {
        tokens(s.drop_first())
    } else {
        let n = word_len(s);
        if 0 < n <= s.len() {
            seq![s.take(n as int)] + tokens(s.skip(n as int))
        } else {
            Seq::empty()
        }
    }
}

/// The views of a sequence of strings.
pub open spec fn views(v: Seq<String>) -> Seq<Seq<char>> {
    v.map_values(|t: String| t@)
}

/// A run of `n` non-whitespace characters that ends at whitespace or at the
/// end of `s` is the first word of `s`.
pub proof fn lemma_word_len_is(s: Seq<char>, n: nat)
    requires
        n <= s.len(),
        forall|k: int| 0 <= k < n ==> !is_space(#[trigger] s[k]),
        n < s.len() ==> is_space(s[n as int]),
    ensures
        word_len(s) == n,
    decreases n,
{
    if n == 0 {
    } else {
        let rest = s.drop_first();
        assert forall|k: int| 0 <= k < n - 1 implies !is_space(#[trigger] rest[k]) by {
            assert(rest[k] == s[k + 1]);
        }
        lemma_word_len_is(rest, (n - 1) as nat);
    }
}

/// Whether `c` is ASCII whitespace.
pub fn is_space_char(c: char) -> (r: bool)
    ensures
        r == is_space(c),
{
    c == ' ' || c == '\t' || c == '\n' || c == '\r' || c == '\u{c}'
}

/// The characters of `s`, in order.
pub fn chars_of(s: &str) -> (r: Vec<char>)
    ensures
        r@ == s@,
{
    let mut out: Vec<char> = Vec::new();
    for c in it: s.chars()
        invariant
            it.seq() == s@,
            out@ == s@.take(it.index() as int),
    {
        out.push(c);
        assert(out@ == s@.take(it.index() + 1));
    }
    assert(s@.take(s@.len() as int) == s@);
    out
}

/// Splits `input` into its tokens: the maximal runs of characters that are
/// not ASCII whitespace.
pub fn split_tokens(input: &str) -> (r: Vec<String>)
    ensures
        views(r@) == tokens(input@),
{
    let chars = chars_of(input);
    let n = chars.len();
    let mut out: Vec<String> = Vec::new();
    let mut i: usize = 0;
    assert(chars@.skip(0) == chars@);
    assert(views(out@) == Seq::<Seq<char>>::empty());
    while i < n
        invariant
            chars@ == input@,
            n == chars@.len(),
            i <= n,
            views(out@) + tokens(chars@.skip(i as int)) == tokens(chars@),
        decreases n - i,
    {
        let ghost rest = chars@.skip(i as int);
        if is_space_char(chars[i]) {
            assert(rest.drop_first() == chars@.skip(i + 1));
            i += 1;
        } else {
            let mut j: usize = i + 1;
            while j < n && !is_space_char(chars[j])
                invariant
                    n == chars@.len(),
                    i < j <= n,
                    forall|k: int| i <= k < j ==> !is_space(#[trigger] chars@[k]),
                decreases n - j,
            {
                j += 1;
            }
            proof {
                assert forall|k: int| 0 <= k < j - i implies !is_space(#[trigger] rest[k]) by {
                    assert(rest[k] == chars@[i + k]);
                }
                lemma_word_len_is(rest, (j - i) as nat);
                assert(rest.skip(j - i) == chars@.skip(j as int));
                assert(rest.take(j - i) == input@.subrange(i as int, j as int));
            }
            let word = String::from_str(input.substring_char(i, j));
            let ghost before = out@;
            out.push(word);
            proof {
                assert(views(out@) == views(before) + seq![word@]);
                assert(views(out@) + tokens(chars@.skip(j as int)) == views(before) + (seq![
                    word@,
                ] + tokens(chars@.skip(j as int))));
            }
            i = j;
        }
    }
    assert(chars@.skip(n as int) == Seq::<char>::empty());
    assert(views(out@) + Seq::<Seq<char>>::empty() == views(out@));
    out
}

/// `c` with an ASCII lower-case letter replaced by its upper-case form.
pub open spec fn upper_char(c: char) -> char {
    if 'a' <= c <= 'z' {
        ((c as u8) - 32) as char
    } else {
        c
    }
}

/// `s` with every ASCII lower-case letter replaced by its upper-case form.
pub open spec fn upper(s: Seq<char>) -> Seq<char> {
    s.map_values(|c: char| upper_char(c))
}

/// `c` with an ASCII lower-case letter replaced by its upper-case form.
pub fn to_upper_char(c: char) -> (r: char)
    ensures
        r == upper_char(c),
{
    if 'a' <= c && c <= 'z' {
        ((c as u8) - 32) as char
    } else {
        c
    }
}

/// Whether `word` is `name` up to ASCII case.
pub fn is_keyword(word: &str, name: &str) -> (r: bool)
    ensures
        r == (upper(word@) == name@),
{
    let a = chars_of(word);
    let b = chars_of(name);
    if a.len() != b.len() {
        return false;
    }
    let mut i: usize = 0;
    while i < a.len()
        invariant
            a@ == word@,
            b@ == name@,
            a.len() == b.len(),
            i <= a.len(),
            forall|k: int| 0 <= k < i ==> upper_char(#[trigger] a@[k]) == b@[k],
        decreases a.len() - i,
    {
        if to_upper_char(a[i]) != b[i] {
            assert(upper(word@)[i as int] != name@[i as int]);
            return false;
        }
        i += 1;
    }
    assert(upper(word@) =~= name@);
    true
}

} // verus!
