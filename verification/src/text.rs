//! Text normalization and display formatting.

use regex::Regex;
use vstd::prelude::*;
use vstd::string::StringExecFns;

verus! {

/// The characters of the Unicode `White_Space` property.
pub open spec fn is_white_space(c: char) -> bool {
    ||| ('\t' <= c && c <= '\r')
    ||| c == ' '
    ||| c == '\u{85}'
    ||| c == '\u{a0}'
    ||| c == '\u{1680}'
    ||| ('\u{2000}' <= c && c <= '\u{200a}')
    ||| c == '\u{2028}'
    ||| c == '\u{2029}'
    ||| c == '\u{202f}'
    ||| c == '\u{205f}'
    ||| c == '\u{3000}'
}

/// `s` with every maximal run of white space replaced by one space.
pub open spec fn spec_collapse_whitespace(s: Seq<char>) -> Seq<char>
    decreases s.len(),
{
    if s.len() == 0 {
        Seq::empty()
    } else if is_white_space(s.last()) {
        if s.len() > 1 && is_white_space(s[s.len() - 2]) {
            spec_collapse_whitespace(s.drop_last())
        } else {
            spec_collapse_whitespace(s.drop_last()).push(' ')
        }
    } else {
        spec_collapse_whitespace(s.drop_last()).push(s.last())
    }
}

/// The lowercase mapping of a string, as Unicode defines it (a capital sigma
/// maps by its place in a word).
pub uninterp spec fn spec_lowercase(s: Seq<char>) -> Seq<char>;

/// `s` with each character of `punctuation` replaced by a space.
pub open spec fn spec_replace_punctuation(s: Seq<char>, punctuation: Seq<char>) -> Seq<char> {
    s.map_values(|c: char| if punctuation.contains(c) { ' ' } else { c })
}

/// The index of the first character of `s` that is not white space, or its length.
pub open spec fn first_non_space(s: Seq<char>, i: int) -> int
    decreases s.len() - i,
{
    if i >= s.len() || !is_white_space(s[i]) {
        i
    } else {
        first_non_space(s, i + 1)
    }
}

/// One past the last character of `s` before `j` that is not white space, or `lo`.
pub open spec fn last_non_space(s: Seq<char>, lo: int, j: int) -> int
    decreases j - lo,
{
    if j <= lo || !is_white_space(s[j - 1]) {
        j
    } else {
        last_non_space(s, lo, j - 1)
    }
}

/// `s` without leading and trailing white space.
pub open spec fn spec_trim(s: Seq<char>) -> Seq<char> {
    let a = first_non_space(s, 0);
    s.subrange(a, last_non_space(s, a, s.len() as int))
}

/// The normalized form of a text: lowercased, punctuation turned into
/// spaces, white space runs collapsed to one space, and trimmed.
pub open spec fn spec_clean_text(text: Seq<char>, punctuation: Seq<char>) -> Seq<char> {
    spec_trim(spec_collapse_whitespace(spec_replace_punctuation(spec_lowercase(text), punctuation)))
}

/// Whether every white space character of a text is a plain space that is
/// not followed by more white space.
pub open spec fn single_spaced(s: Seq<char>) -> bool {
    forall|i: int| 0 <= i < s.len() && is_white_space(#[trigger] s[i]) ==> s[i] == ' ' && (i + 1 < s.len()
        ==> !is_white_space(s[i + 1]))
}

/// Whether a text neither starts nor ends with white space.
pub open spec fn trimmed(s: Seq<char>) -> bool {
    s.len() > 0 ==> !is_white_space(s[0]) && !is_white_space(s.last())
}

/// Whether the only characters of `punctuation` in a text are plain spaces.
pub open spec fn free_of(s: Seq<char>, punctuation: Seq<char>) -> bool {
    forall|i: int| 0 <= i < s.len() && punctuation.contains(#[trigger] s[i]) ==> s[i] == ' '
}

proof fn lemma_collapse_shape(s: Seq<char>, punctuation: Seq<char>)
    requires
        free_of(s, punctuation),
    ensures
        single_spaced(spec_collapse_whitespace(s)),
        free_of(spec_collapse_whitespace(s), punctuation),
        forall|i: int| 0 <= i < spec_collapse_whitespace(s).len() ==> (#[trigger] spec_collapse_whitespace(s)[i]
            == ' ' || !is_white_space(spec_collapse_whitespace(s)[i])),
        s.len() == 0 ==> spec_collapse_whitespace(s).len() == 0,
        s.len() > 0 ==> spec_collapse_whitespace(s).len() > 0 && (is_white_space(
            spec_collapse_whitespace(s).last(),
        ) <==> is_white_space(s.last())),
    decreases s.len(),
{
    if s.len() > 0 {
        let d = s.drop_last();
        assert forall|i: int| 0 <= i < d.len() && punctuation.contains(#[trigger] d[i]) implies d[i] == ' ' by {
            assert(d[i] == s[i]);
        }
        lemma_collapse_shape(d, punctuation);
        if is_white_space(s.last()) && s.len() > 1 && is_white_space(s[s.len() - 2]) {
            assert(d.last() == s[s.len() - 2]);
        } else if is_white_space(s.last()) {
            if d.len() > 0 {
                assert(d.last() == s[s.len() - 2]);
            }
        } else {
            assert(punctuation.contains(s.last()) ==> s[s.len() - 1] == ' ');
        }
    }
}

proof fn lemma_first_non_space(s: Seq<char>, i: int)
    requires
        0 <= i <= s.len(),
    ensures
        i <= first_non_space(s, i) <= s.len(),
        first_non_space(s, i) < s.len() ==> !is_white_space(s[first_non_space(s, i)]),
        forall|j: int| i <= j < first_non_space(s, i) ==> is_white_space(#[trigger] s[j]),
    decreases s.len() - i,
{
    if i < s.len() && is_white_space(s[i]) {
        lemma_first_non_space(s, i + 1);
    }
}

proof fn lemma_last_non_space(s: Seq<char>, lo: int, j: int)
    requires
        0 <= lo <= j <= s.len(),
    ensures
        lo <= last_non_space(s, lo, j) <= j,
        last_non_space(s, lo, j) > lo ==> !is_white_space(s[last_non_space(s, lo, j) - 1]),
    decreases j - lo,
{
    if j > lo && is_white_space(s[j - 1]) {
        lemma_last_non_space(s, lo, j - 1);
    }
}

proof fn lemma_collapse_fixed(s: Seq<char>)
    requires
        single_spaced(s),
    ensures
        spec_collapse_whitespace(s) == s,
    decreases s.len(),
{
    if s.len() > 0 {
        let d = s.drop_last();
        assert forall|i: int| 0 <= i < d.len() && is_white_space(#[trigger] d[i]) implies d[i] == ' ' && (i + 1
            < d.len() ==> !is_white_space(d[i + 1])) by {
            assert(d[i] == s[i]);
            if i + 1 < d.len() {
                assert(d[i + 1] == s[i + 1]);
            }
        }
        lemma_collapse_fixed(d);
        if is_white_space(s.last()) {
            assert(s[s.len() - 1] == ' ');
            if s.len() > 1 {
                if is_white_space(s[s.len() - 2]) {
                    assert(!is_white_space(s[s.len() - 1]));
                }
            }
        }
        assert(d.push(s.last()) =~= s);
    }
}

/// A cleaned text is trimmed, its only white space is single plain spaces,
/// and no character of the punctuation is left in it but a plain space;
/// turning punctuation into spaces, collapsing white space and trimming it
/// once more changes nothing.
pub proof fn lemma_clean_text_shape(text: Seq<char>, punctuation: Seq<char>)
    ensures
        trimmed(spec_clean_text(text, punctuation)),
        single_spaced(spec_clean_text(text, punctuation)),
        free_of(spec_clean_text(text, punctuation), punctuation),
        spec_trim(
            spec_collapse_whitespace(
                spec_replace_punctuation(spec_clean_text(text, punctuation), punctuation),
            ),
        ) == spec_clean_text(text, punctuation),
{
    let low = spec_lowercase(text);
    let rep = spec_replace_punctuation(low, punctuation);
    assert forall|i: int| 0 <= i < rep.len() && punctuation.contains(#[trigger] rep[i]) implies rep[i] == ' ' by {
        if !punctuation.contains(low[i]) {
            assert(rep[i] == low[i]);
        }
    }
    lemma_collapse_shape(rep, punctuation);
    let c = spec_collapse_whitespace(rep);
    let a = first_non_space(c, 0);
    lemma_first_non_space(c, 0);
    lemma_last_non_space(c, a, c.len() as int);
    let b = last_non_space(c, a, c.len() as int);
    let r = c.subrange(a, b);
    assert(r == spec_clean_text(text, punctuation));
    assert forall|i: int| 0 <= i < r.len() && is_white_space(#[trigger] r[i]) implies r[i] == ' ' && (i + 1
        < r.len() ==> !is_white_space(r[i + 1])) by {
        assert(r[i] == c[a + i]);
        if i + 1 < r.len() {
            assert(r[i + 1] == c[a + i + 1]);
        }
    }
    assert forall|i: int| 0 <= i < r.len() && punctuation.contains(#[trigger] r[i]) implies r[i] == ' ' by {
        assert(r[i] == c[a + i]);
    }
    if r.len() > 0 {
        assert(r[0] == c[a]);
        assert(r.last() == c[b - 1]);
    }
    assert(spec_replace_punctuation(r, punctuation) =~= r);
    lemma_collapse_fixed(r);
    lemma_first_non_space(r, 0);
    if r.len() > 0 {
        assert(first_non_space(r, 0) == 0);
        assert(last_non_space(r, 0, r.len() as int) == r.len());
    }
    assert(r.subrange(first_non_space(r, 0), last_non_space(r, first_non_space(r, 0), r.len() as int)) =~= r);
}

/// Appends a character to a string (`String::push`).
#[verifier::external_body]
pub(crate) fn push_char(s: &mut String, c: char)
    ensures
        final(s)@ == old(s)@.push(c),
{
    s.push(c);
}

/// The lowercase form of a string (`str::to_lowercase`).
#[verifier::external_body]
fn lowercase(s: &str) -> (res: String)
    ensures
        res@ == spec_lowercase(s@),
{
    s.to_lowercase()
}

/// Replaces every run of white space by one space (the regex `\s+`, whose
/// `\s` is the Unicode `White_Space` property, replaced by `" "`).
#[verifier::external_body]
fn collapse_whitespace(s: &str) -> (res: String)
    ensures
        res@ == spec_collapse_whitespace(s@),
{
    let re = Regex::new(r"\s+").unwrap();
    re.replace_all(s, " ").to_string()
}

/// The characters of a string.
pub fn chars_of(s: &str) -> (v: Vec<char>)
    ensures
        v@ == s@,
{
    let mut v: Vec<char> = Vec::new();
    for c in it: s.chars()
        invariant
            it.seq() == s@,
            v@ == s@.take(it.index()),
    {
        v.push(c);
        proof {
            assert(v@ =~= s@.take(it.index() + 1));
        }
    }
    assert(v@ =~= s@);
    v
}

/// The string made of the characters of `v` from `lo` to `hi`.
pub fn string_from_chars(v: &Vec<char>, lo: usize, hi: usize) -> (s: String)
    requires
        lo <= hi <= v@.len(),
    ensures
        s@ == v@.subrange(lo as int, hi as int),
{
    let mut s = String::new();
    let mut i = lo;
    while i < hi
        invariant
            lo <= i <= hi,
            hi <= v@.len(),
            s@ == v@.subrange(lo as int, i as int),
        decreases hi - i,
    {
        push_char(&mut s, v[i]);
        proof {
            assert(s@ =~= v@.subrange(lo as int, i + 1));
        }
        i = i + 1;
    }
    s
}

/// Whether a character is Unicode white space.
pub fn is_white_space_char(c: char) -> (res: bool)
    ensures
        res == is_white_space(c),
{
    ('\t' <= c && c <= '\r') || c == ' ' || c == '\u{85}' || c == '\u{a0}' || c == '\u{1680}'
        || ('\u{2000}' <= c && c <= '\u{200a}') || c == '\u{2028}' || c == '\u{2029}'
        || c == '\u{202f}' || c == '\u{205f}' || c == '\u{3000}'
}

/// Removes leading and trailing white space.
pub fn trim_white_space(s: &str) -> (res: String)
    ensures
        res@ == spec_trim(s@),
{
    let v = chars_of(s);
    let mut a: usize = 0;
    while a < v.len() && is_white_space_char(v[a])
        invariant
            a <= v@.len(),
            v@ == s@,
            first_non_space(s@, a as int) == first_non_space(s@, 0),
        decreases v@.len() - a,
    {
        a = a + 1;
    }
    let mut b: usize = v.len();
    while b > a && is_white_space_char(v[b - 1])
        invariant
            a <= b <= v@.len(),
            v@ == s@,
            a == first_non_space(s@, 0),
            last_non_space(s@, a as int, b as int) == last_non_space(s@, a as int, s@.len() as int),
        decreases b,
    {
        b = b - 1;
    }
    string_from_chars(&v, a, b)
}

/// Normalizes a text for matching: lowercases it, turns each character of
/// `punctuation_chars` into a space, collapses white space runs into one
/// space and trims the ends.
pub fn clean_text(text: &str, punctuation_chars: &str) -> (res: String)
    ensures
        res@ == spec_clean_text(text@, punctuation_chars@),
{
    let lowered = lowercase(text);
    let punct = chars_of(punctuation_chars);
    let chars = chars_of(lowered.as_str());
    let mut replaced = String::new();
    let mut i: usize = 0;
    while i < chars.len()
        invariant
            i <= chars@.len(),
            chars@ == lowered@,
            punct@ == punctuation_chars@,
            replaced@ == spec_replace_punctuation(chars@, punct@).take(i as int),
        decreases chars@.len() - i,
    {
        let c = chars[i];
        let mut is_punct = false;
        let mut k: usize = 0;
        while k < punct.len()
            invariant
                k <= punct@.len(),
                is_punct == punct@.take(k as int).contains(c),
            decreases punct@.len() - k,
        {
            proof {
                assert(punct@.take(k + 1) =~= punct@.take(k as int).push(punct@[k as int]));
            }
            if punct[k] == c {
                is_punct = true;
            }
            proof {
                let t0 = punct@.take(k as int);
                let t1 = punct@.take(k + 1);
                if punct@[k as int] == c {
                    assert(t1[k as int] == c);
                } else if !t0.contains(c) {
                    assert forall|j: int| 0 <= j < t1.len() implies t1[j] != c by {
                        if j < k {
                            assert(t1[j] == t0[j]);
                        }
                    }
                } else {
                    let j = choose|j: int| 0 <= j < t0.len() && t0[j] == c;
                    assert(t1[j] == c);
                }
            }
            k = k + 1;
        }
        assert(punct@.take(punct@.len() as int) =~= punct@);
        push_char(&mut replaced, if is_punct { ' ' } else { c });
        proof {
            assert(replaced@ =~= spec_replace_punctuation(chars@, punct@).take(i + 1));
        }
        i = i + 1;
    }
    assert(spec_replace_punctuation(chars@, punct@).take(chars@.len() as int) =~= spec_replace_punctuation(chars@, punct@));
    let collapsed = collapse_whitespace(replaced.as_str());
    trim_white_space(collapsed.as_str())
}


/// The characters that cleaning turns into spaces by default.
pub fn default_punctuation_chars() -> (res: String)
    ensures
        res@ == "!'\"#$%&'()*+,-./:;<=>?@[\\]^_`{|}~\u{201c}\u{201d}\u{2018}\u{2019}\u{2014}"@,
{
    String::from_str("!'\"#$%&'()*+,-./:;<=>?@[\\]^_`{|}~\u{201c}\u{201d}\u{2018}\u{2019}\u{2014}")
}

} // verus!
