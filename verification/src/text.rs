//! Text normalisation ahead of parsing: trimming of surrounding white space
//! and lower-casing.

use vstd::prelude::*;
use vstd::string::*;
use vstd::utf8::is_ascii_chars;

verus! {

/// Characters with the Unicode `White_Space` property.
pub open spec fn is_white_space(c: char) -> bool {
    ||| '\u{9}' <= c <= '\u{d}'
    ||| c == ' '
    ||| c == '\u{85}'
    ||| c == '\u{a0}'
    ||| c == '\u{1680}'
    ||| '\u{2000}' <= c <= '\u{200a}'
    ||| c == '\u{2028}'
    ||| c == '\u{2029}'
    ||| c == '\u{202f}'
    ||| c == '\u{205f}'
    ||| c == '\u{3000}'
}

/// `s` without the white space at its front.
pub open spec fn trim_start_spec(s: Seq<char>) -> Seq<char>
    decreases s.len(),
{
    if s.len() > 0 && is_white_space(s.first()) {
        trim_start_spec(s.drop_first())
    } else {
        s
    }
}

/// `s` without the white space at its back.
pub open spec fn trim_end_spec(s: Seq<char>) -> Seq<char>
    decreases s.len(),
{
    if s.len() > 0 && is_white_space(s.last()) {
        trim_end_spec(s.drop_last())
    } else {
        s
    }
}

/// `s` without the white space at either end.
pub open spec fn trim_spec(s: Seq<char>) -> Seq<char> {
    trim_end_spec(trim_start_spec(s))
}

/// The lower-case form of an ASCII letter; any other character unchanged.
pub open spec fn ascii_lower(c: char) -> char {
    if 'A' <= c <= 'Z' {
        ((c as u8 + 32) as u8) as char
    } else {
        c
    }
}

/// `s` with every ASCII capital replaced by its lower-case form.
pub open spec fn ascii_lowercased(s: Seq<char>) -> Seq<char> {
    Seq::new(s.len(), |i: int| ascii_lower(s[i]))
}

/// The Unicode lower-case form of a string, as the standard library
/// computes it.
pub uninterp spec fn lowercased(s: Seq<char>) -> Seq<char>;

/// Decides whether a character is white space.
pub fn white_space(c: char) -> (r: bool)
    ensures
        r == is_white_space(c),
{
    ('\u{9}' <= c && c <= '\u{d}') || c == ' ' || c == '\u{85}' || c == '\u{a0}' || c
        == '\u{1680}' || ('\u{2000}' <= c && c <= '\u{200a}') || c == '\u{2028}' || c
        == '\u{2029}' || c == '\u{202f}' || c == '\u{205f}' || c == '\u{3000}'
}

/// Dropping `k` leading white-space characters that are followed by the end
/// of the string or by something else is trimming the front.
pub proof fn lemma_trim_start_is_skip(s: Seq<char>, k: int)
    requires
        0 <= k <= s.len(),
        forall|j: int| 0 <= j < k ==> is_white_space(#[trigger] s[j]),
        k == s.len() || !is_white_space(s[k]),
    ensures
        trim_start_spec(s) == s.skip(k),
    decreases k,
{
    if k == 0 {
        assert(s.skip(0) =~= s);
    } else {
        let rest = s.drop_first();
        assert forall|j: int| 0 <= j < k - 1 implies is_white_space(#[trigger] rest[j]) by {
            assert(rest[j] == s[j + 1]);
        }
        lemma_trim_start_is_skip(rest, k - 1);
        assert(rest.skip(k - 1) =~= s.skip(k));
    }
}

/// Keeping the first `k` characters, where only white space follows and the
/// last one kept is something else, is trimming the back.
pub proof fn lemma_trim_end_is_take(s: Seq<char>, k: int)
    requires
        0 <= k <= s.len(),
        forall|j: int| k <= j < s.len() ==> is_white_space(#[trigger] s[j]),
        k == 0 || !is_white_space(s[k - 1]),
    ensures
        trim_end_spec(s) == s.take(k),
    decreases s.len() - k,
{
    if k == s.len() {
        assert(s.take(k) =~= s);
    } else {
        let rest = s.drop_last();
        assert(is_white_space(s[s.len() - 1]));
        lemma_trim_end_is_take(rest, k);
        assert(rest.take(k) =~= s.take(k));
    }
}

/// A string that neither starts nor ends with white space is its own
/// trimmed form.
pub proof fn lemma_trim_keeps_tight(s: Seq<char>)
    requires
        s.len() > 0 ==> !is_white_space(s.first()) && !is_white_space(s.last()),
    ensures
        trim_spec(s) == s,
{
}

/// Whether `s` consists of white space only.
pub open spec fn all_white_space(s: Seq<char>) -> bool {
    forall|j: int| 0 <= j < s.len() ==> is_white_space(#[trigger] s[j])
}

/// White space put in front is trimmed away again.
pub proof fn lemma_trim_start_drops_padding(pad: Seq<char>, s: Seq<char>)
    requires
        all_white_space(pad),
    ensures
        trim_start_spec(pad + s) == trim_start_spec(s),
    decreases pad.len(),
{
    if pad.len() == 0 {
        assert(pad + s =~= s);
    } else {
        assert((pad + s).first() == pad[0]);
        assert((pad + s).drop_first() =~= pad.drop_first() + s);
        assert forall|j: int| 0 <= j < pad.drop_first().len() implies is_white_space(
            #[trigger] pad.drop_first()[j],
        ) by {
            assert(pad.drop_first()[j] == pad[j + 1]);
        }
        lemma_trim_start_drops_padding(pad.drop_first(), s);
    }
}

/// White space put behind is trimmed away again.
pub proof fn lemma_trim_end_drops_padding(s: Seq<char>, pad: Seq<char>)
    requires
        all_white_space(pad),
    ensures
        trim_end_spec(s + pad) == trim_end_spec(s),
    decreases pad.len(),
{
    if pad.len() == 0 {
        assert(s + pad =~= s);
    } else {
        assert((s + pad).last() == pad[pad.len() - 1]);
        assert((s + pad).drop_last() =~= s + pad.drop_last());
        lemma_trim_end_drops_padding(s, pad.drop_last());
    }
}

/// Trimming the front leaves white space behind the string alone, unless
/// the string is white space throughout.
pub proof fn lemma_trim_start_keeps_back(s: Seq<char>, pad: Seq<char>)
    requires
        all_white_space(pad),
    ensures
        trim_start_spec(s + pad) == if trim_start_spec(s).len() == 0 {
            Seq::<char>::empty()
        } else {
            trim_start_spec(s) + pad
        },
    decreases s.len(),
{
    if s.len() == 0 {
        lemma_trim_start_drops_padding(pad, s);
        assert(pad + s =~= s + pad);
    } else if is_white_space(s.first()) {
        assert((s + pad).first() == s.first());
        assert((s + pad).drop_first() =~= s.drop_first() + pad);
        lemma_trim_start_keeps_back(s.drop_first(), pad);
    } else {
        assert((s + pad).first() == s.first());
    }
}

/// White space around a string does not change its trimmed form.
pub proof fn lemma_trim_ignores_padding(front: Seq<char>, s: Seq<char>, back: Seq<char>)
    requires
        all_white_space(front),
        all_white_space(back),
    ensures
        trim_spec(front + s + back) == trim_spec(s),
{
    assert(front + s + back =~= front + (s + back));
    lemma_trim_start_drops_padding(front, s + back);
    lemma_trim_start_keeps_back(s, back);
    lemma_trim_end_drops_padding(trim_start_spec(s), back);
}

/// Removes the white space at both ends of `s`.
pub fn trim(s: &str) -> (r: &str)
    ensures
        r@ == trim_spec(s@),
{
    let len = s.unicode_len();
    let mut start: usize = 0;
    let mut end: usize = 0;
    let mut i: usize = 0;
    for c in it: s.chars()
        invariant
            i == it.index(),
            it.seq() == s@,
            len == s@.len(),
            start <= end <= i,
            start == end ==> start == i,
            forall|j: int| 0 <= j < start ==> is_white_space(#[trigger] s@[j]),
            forall|j: int| end <= j < i ==> is_white_space(#[trigger] s@[j]),
            start < end ==> !is_white_space(s@[start as int]) && !is_white_space(s@[end - 1]),
    {
        if white_space(c) {
            if start == end {
                start = i + 1;
                end = i + 1;
            }
        } else {
            end = i + 1;
        }
        i = i + 1;
    }
    proof {
        lemma_trim_start_is_skip(s@, start as int);
        lemma_trim_end_is_take(s@.skip(start as int), end - start);
        assert(s@.skip(start as int).take(end - start) =~= s@.subrange(start as int, end as int));
    }
    s.substring_char(start, end)
}

/// Lower-cases `s` with `str::to_lowercase`. The result is the Unicode
/// lower-case mapping of the whole string; on a string of ASCII characters
/// that mapping replaces the capitals `A` to `Z` by `a` to `z` and leaves
/// every other character as it is.
#[verifier::external_body]
pub(crate) fn lowercase(s: &str) -> (r: String)
    ensures
        r@ == lowercased(s@),
        is_ascii_chars(s@) ==> r@ == ascii_lowercased(s@),
{
    s.to_lowercase()
}

} // verus!
