//! Recognition of image files by the extension of their name.
use vstd::prelude::*;

verus! {

/// `c` is the lower-case letter `l` or its ASCII upper-case form.
pub open spec fn folds_to(c: char, l: char) -> bool {
    c == l || ('a' <= l && l <= 'z' && c as int + 32 == l as int)
}

/// The name ends with `suffix`, letters compared without regard to ASCII case.
/// `suffix` is written in lower case.
pub open spec fn ends_with_folded(s: Seq<char>, suffix: Seq<char>) -> bool {
    suffix.len() <= s.len() && forall|i: int|
        0 <= i < suffix.len() ==> folds_to(#[trigger] s[s.len() - suffix.len() + i], suffix[i])
}

/// A name whose extension is `jpg`, `jpeg`, `png`, `gif` or `bmp`, in any case.
pub open spec fn is_image_name(s: Seq<char>) -> bool {
    ||| ends_with_folded(s, seq!['.', 'j', 'p', 'g'])
    ||| ends_with_folded(s, seq!['.', 'j', 'p', 'e', 'g'])
    ||| ends_with_folded(s, seq!['.', 'p', 'n', 'g'])
    ||| ends_with_folded(s, seq!['.', 'g', 'i', 'f'])
    ||| ends_with_folded(s, seq!['.', 'b', 'm', 'p'])
}

fn char_folds_to(c: char, l: char) -> (r: bool)
    ensures
        r == folds_to(c, l),
{
    c == l || ('a' <= l && l <= 'z' && (c as u32) + 32 == l as u32)
}

fn name_ends_with(name: &str, n: usize, suffix: &[char]) -> (r: bool)
    requires
        n == name@.len(),
    ensures
        r == ends_with_folded(name@, suffix@),
{
    let k = suffix.len();
    if k > n {
        return false;
    }
    let mut i: usize = 0;
    while i < k
        invariant
            k == suffix@.len(),
            k <= n,
            n == name@.len(),
            i <= k,
            forall|j: int| 0 <= j < i ==> folds_to(#[trigger] name@[n - k + j], suffix@[j]),
        decreases k - i,
    {
        let c = name.get_char(n - k + i);
        if !char_folds_to(c, suffix[i]) {
            return false;
        }
        i += 1;
    }
    true
}

/// Whether a file name carries one of the supported image extensions,
/// compared without regard to case. The file's content plays no part.
pub fn is_image_file(name: &str) -> (r: bool)
    ensures
        r == is_image_name(name@),
{
    let n = name.unicode_len();
    let jpg: [char; 4] = ['.', 'j', 'p', 'g'];
    let jpeg: [char; 5] = ['.', 'j', 'p', 'e', 'g'];
    let png: [char; 4] = ['.', 'p', 'n', 'g'];
    let gif: [char; 4] = ['.', 'g', 'i', 'f'];
    let bmp: [char; 4] = ['.', 'b', 'm', 'p'];
    assert(jpg@ == seq!['.', 'j', 'p', 'g']);
    assert(jpeg@ == seq!['.', 'j', 'p', 'e', 'g']);
    assert(png@ == seq!['.', 'p', 'n', 'g']);
    assert(gif@ == seq!['.', 'g', 'i', 'f']);
    assert(bmp@ == seq!['.', 'b', 'm', 'p']);
    name_ends_with(name, n, jpg.as_slice()) || name_ends_with(name, n, jpeg.as_slice())
        || name_ends_with(name, n, png.as_slice()) || name_ends_with(name, n, gif.as_slice())
        || name_ends_with(name, n, bmp.as_slice())
}

/// `c` and `d` are the same character, or the same ASCII letter in two cases.
pub open spec fn same_letter_ignoring_case(c: char, d: char) -> bool {
    ||| c == d
    ||| ('a' <= c && c <= 'z' && d as int + 32 == c as int)
    ||| ('a' <= d && d <= 'z' && c as int + 32 == d as int)
}

/// Two names that differ at most in the ASCII case of their letters.
pub open spec fn same_name_ignoring_case(s: Seq<char>, t: Seq<char>) -> bool {
    s.len() == t.len() && forall|i: int| 0 <= i < s.len() ==> same_letter_ignoring_case(#[trigger] s[i], t[i])
}

proof fn lemma_suffix_ignores_case(s: Seq<char>, t: Seq<char>, suffix: Seq<char>)
    requires
        same_name_ignoring_case(s, t),
        forall|i: int| 0 <= i < suffix.len() ==> #[trigger] suffix[i] == '.' || ('a' <= suffix[i] && suffix[i] <= 'z'),
    ensures
        ends_with_folded(s, suffix) == ends_with_folded(t, suffix),
{
    if suffix.len() <= s.len() {
        let d = s.len() - suffix.len();
        assert forall|i: int| 0 <= i < suffix.len() implies folds_to(#[trigger] s[d + i], suffix[i]) == folds_to(
            t[d + i],
            suffix[i],
        ) by {
            assert(same_letter_ignoring_case(s[d + i], t[d + i]));
        }
        if ends_with_folded(s, suffix) {
            assert forall|i: int| 0 <= i < suffix.len() implies folds_to(#[trigger] t[t.len() - suffix.len() + i], suffix[i]) by {
                assert(folds_to(s[d + i], suffix[i]));
            }
        }
        if ends_with_folded(t, suffix) {
            assert forall|i: int| 0 <= i < suffix.len() implies folds_to(#[trigger] s[s.len() - suffix.len() + i], suffix[i]) by {
                assert(folds_to(t[d + i], suffix[i]));
            }
        }
    }
}

/// Whether a name is an image name does not depend on the case of its letters.
pub proof fn lemma_image_name_ignores_case(s: Seq<char>, t: Seq<char>)
    requires
        same_name_ignoring_case(s, t),
    ensures
        is_image_name(s) == is_image_name(t),
{
    lemma_suffix_ignores_case(s, t, seq!['.', 'j', 'p', 'g']);
    lemma_suffix_ignores_case(s, t, seq!['.', 'j', 'p', 'e', 'g']);
    lemma_suffix_ignores_case(s, t, seq!['.', 'p', 'n', 'g']);
    lemma_suffix_ignores_case(s, t, seq!['.', 'g', 'i', 'f']);
    lemma_suffix_ignores_case(s, t, seq!['.', 'b', 'm', 'p']);
}

} // verus!
