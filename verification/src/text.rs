//! Text primitives: white space, trimming, words, case and substring search,
//! each tied to a specification over sequences of characters.

use vstd::prelude::*;

verus! {

// --- What the standard library's strings do --------------------------------

/// The lowercase equivalent of a text, as `str::to_lowercase` gives it.
pub uninterp spec fn unicode_lowercase(s: Seq<char>) -> Seq<char>;

/// Calls `str::to_lowercase`. The result depends on the text alone and is
/// named `unicode_lowercase`; on a text of ASCII characters only, it is the
/// text with `A` to `Z` mapped to `a` to `z`. Every character gives one or more,
/// so that only the empty text becomes empty. Nothing more is claimed of how
/// other characters are mapped.
#[verifier::external_body]
fn std_to_lowercase(s: &str) -> (r: String)
    ensures
        r@ == unicode_lowercase(s@),
        is_ascii_text(s@) ==> r@ == ascii_lowercase(s@),
        s@.len() > 0 ==> r@.len() > 0,
{
    s.to_lowercase()
}

/// `String::push` appends one character to the end of the string.
pub assume_specification[ String::push ](s: &mut String, c: char)
    ensures
        final(s)@ == old(s)@.push(c),
;

/// `String::pop` removes the last character and returns it, or returns `None`
/// and leaves the string as it is where it is empty.
pub assume_specification[ String::pop ](s: &mut String) -> (r: Option<char>)
    ensures
        old(s)@.len() == 0 ==> r is None && final(s)@ == old(s)@,
        old(s)@.len() > 0 ==> r == Some(old(s)@.last()) && final(s)@ == old(s)@.drop_last(),
;

// --- Characters ------------------------------------------------------------

/// The characters with the Unicode property `White_Space`.
pub open spec fn white_space(c: char) -> bool {
    ||| '\u{9}' <= c <= '\u{d}'
    ||| c == ' '
    ||| c == '\u{85}'
    ||| c == '\u{a0}'
    ||| c == '\u{1680}'
    ||| '\u{2000}' <= c <= '\u{200a}'
    ||| c == '\u{2028}'
    ||| c == '\u{2029}'
    ||| c == '\u{202f}'
    ||| c == '\u{205f}'
    ||| c == '\u{3000}'
}

/// Whether a character is white space.
pub fn is_white_space(c: char) -> (r: bool)
    ensures
        r == white_space(c),
{
    ('\u{9}' <= c && c <= '\u{d}') || c == ' ' || c == '\u{85}' || c == '\u{a0}' || c == '\u{1680}'
        || ('\u{2000}' <= c && c <= '\u{200a}') || c == '\u{2028}' || c == '\u{2029}' || c
        == '\u{202f}' || c == '\u{205f}' || c == '\u{3000}'
}

/// Every character of the text is an ASCII character.
pub open spec fn is_ascii_text(s: Seq<char>) -> bool {
    forall|i: int| 0 <= i < s.len() ==> #[trigger] s[i] <= '\u{7f}'
}

/// The character with `A` to `Z` mapped to `a` to `z`.
pub open spec fn ascii_lowercase_char(c: char) -> char {
    if 'A' <= c <= 'Z' {
        ((c as int) + 32) as char
    } else {
        c
    }
}

/// The text with `A` to `Z` mapped to `a` to `z` and all else unchanged.
pub open spec fn ascii_lowercase(s: Seq<char>) -> Seq<char> {
    s.map_values(|c: char| ascii_lowercase_char(c))
}

fn lowercase_ascii_char(c: char) -> (r: char)
    ensures
        r == ascii_lowercase_char(c),
{
    if 'A' <= c && c <= 'Z' {
        (c as u8 + 32) as char
    } else {
        c
    }
}

/// The text with `A` to `Z` mapped to `a` to `z` and all else unchanged.
pub fn to_ascii_lowercase(s: &str) -> (r: String)
    ensures
        r@ == ascii_lowercase(s@),
{
    let mut out = String::new();
    for c in it: s.chars()
        invariant
            it.seq() == s@,
            out@ == ascii_lowercase(s@.take(it.index() as int)),
    {
        assert(s@.take(it.index() + 1) =~= s@.take(it.index() as int).push(c));
        out.push(lowercase_ascii_char(c));
    }
    assert(s@.take(s@.len() as int) =~= s@);
    out
}

/// The text in lowercase.
pub open spec fn lowercase(s: Seq<char>) -> Seq<char> {
    if is_ascii_text(s) {
        ascii_lowercase(s)
    } else {
        unicode_lowercase(s)
    }
}

/// The text in lowercase.
pub fn to_lowercase(s: &str) -> (r: String)
    ensures
        r@ == lowercase(s@),
        r@.len() == 0 <==> s@.len() == 0,
{
    std_to_lowercase(s)
}

// --- Texts and character vectors -------------------------------------------

/// The texts that a sequence of strings holds.
pub open spec fn texts(v: Seq<String>) -> Seq<Seq<char>> {
    v.map_values(|s: String| s@)
}

/// The view of an optional text.
pub open spec fn optional_text(s: Option<String>) -> Option<Seq<char>> {
    match s {
        Some(t) => Some(t@),
        None => None,
    }
}

/// Whether two texts are the same.
pub(crate) fn same_text(a: &str, b: &str) -> (r: bool)
    ensures
        r == (a@ == b@),
{
    a.to_owned() == b.to_owned()
}

/// The characters of a text, in order.
pub(crate) fn chars_of(s: &str) -> (r: Vec<char>)
    ensures
        r@ == s@,
{
    let mut out: Vec<char> = Vec::new();
    for c in it: s.chars()
        invariant
            it.seq() == s@,
            out@ == s@.take(it.index() as int),
    {
        assert(s@.take(it.index() + 1) =~= s@.take(it.index() as int).push(c));
        out.push(c);
    }
    assert(s@.take(s@.len() as int) =~= s@);
    out
}

/// The text made of the characters from `lo` up to `hi`.
pub(crate) fn text_between(v: &Vec<char>, lo: usize, hi: usize) -> (r: String)
    requires
        lo <= hi <= v.len(),
    ensures
        r@ == v@.subrange(lo as int, hi as int),
{
    let mut out = String::new();
    let mut i: usize = lo;
    while i < hi
        invariant
            lo <= i <= hi <= v.len(),
            out@ == v@.subrange(lo as int, i as int),
        decreases hi - i,
    {
        out.push(v[i]);
        i += 1;
        assert(v@.subrange(lo as int, i as int) =~= v@.subrange(lo as int, i - 1).push(v@[i - 1]));
    }
    out
}

/// The first `max` characters of a text, or all of them where it has fewer.
pub open spec fn first_chars(s: Seq<char>, max: nat) -> Seq<char> {
    if s.len() <= max {
        s
    } else {
        s.take(max as int)
    }
}

/// The first `max` characters of a text, or all of them where it has fewer.
pub(crate) fn take_chars(s: &str, max: usize) -> (r: String)
    ensures
        r@ == first_chars(s@, max as nat),
{
    let v = chars_of(s);
    let end: usize = if v.len() <= max {
        v.len()
    } else {
        max
    };
    let r = text_between(&v, 0, end);
    assert(s@.subrange(0, s@.len() as int) =~= s@);
    r
}

// --- Trimming --------------------------------------------------------------

/// The text without its leading white space.
pub open spec fn trim_start(s: Seq<char>) -> Seq<char>
    decreases s.len(),
{
    if s.len() > 0 && white_space(s[0]) {
        trim_start(s.drop_first())
    } else {
        s
    }
}

/// The text without its trailing white space.
pub open spec fn trim_end(s: Seq<char>) -> Seq<char>
    decreases s.len(),
{
    if s.len() > 0 && white_space(s.last()) {
        trim_end(s.drop_last())
    } else {
        s
    }
}

/// The text without its leading and trailing white space.
pub open spec fn trimmed(s: Seq<char>) -> Seq<char> {
    trim_end(trim_start(s))
}

/// The text without its leading and trailing white space.
pub fn trim(s: &str) -> (r: String)
    ensures
        r@ == trimmed(s@),
{
    let v = chars_of(s);
    let mut lo: usize = 0;
    assert(s@.skip(0) =~= s@);
    while lo < v.len() && is_white_space(v[lo])
        invariant
            lo <= v.len(),
            v@ == s@,
            trim_start(s@) == trim_start(s@.skip(lo as int)),
        decreases v.len() - lo,
    {
        assert(s@.skip(lo as int).drop_first() =~= s@.skip(lo + 1));
        lo += 1;
    }
    let mut hi: usize = v.len();
    let ghost rest = s@.skip(lo as int);
    assert(rest.take(rest.len() as int) =~= rest);
    while lo < hi && is_white_space(v[hi - 1])
        invariant
            lo <= hi <= v.len(),
            v@ == s@,
            rest == s@.skip(lo as int),
            trim_end(rest) == trim_end(rest.take(hi - lo)),
        decreases hi,
    {
        assert(rest.take(hi - lo).drop_last() =~= rest.take(hi - 1 - lo));
        hi -= 1;
    }
    assert(rest.take(hi - lo) =~= s@.subrange(lo as int, hi as int));
    text_between(&v, lo, hi)
}

// --- Words -----------------------------------------------------------------

/// The maximal runs of characters other than white space, in order.
pub open spec fn words(s: Seq<char>) -> Seq<Seq<char>>
    decreases s.len(),
{
    if s.len() == 0 {
        Seq::empty()
    } else {
        let before = words(s.drop_last());
        if white_space(s.last()) {
            before
        } else if s.len() == 1 || white_space(s[s.len() - 2]) {
            before.push(seq![s.last()])
        } else {
            before.drop_last().push(before.last().push(s.last()))
        }
    }
}

/// Every character of the text is white space.
pub open spec fn all_white(s: Seq<char>) -> bool {
    forall|i: int| 0 <= i < s.len() ==> white_space(#[trigger] s[i])
}

/// The text is one word: it is not empty and holds no white space.
pub open spec fn is_word(s: Seq<char>) -> bool {
    s.len() > 0 && forall|i: int| 0 <= i < s.len() ==> !white_space(#[trigger] s[i])
}

/// What the words of a text are: each is a word, all its characters are ASCII
/// where those of the text are, and there are none only where the text is white
/// space.
pub proof fn lemma_words(s: Seq<char>)
    ensures
        forall|k: int| 0 <= k < words(s).len() ==> is_word(#[trigger] words(s)[k]),
        is_ascii_text(s) ==> forall|k: int|
            0 <= k < words(s).len() ==> is_ascii_text(#[trigger] words(s)[k]),
        words(s).len() == 0 <==> all_white(s),
    decreases s.len(),
{
    if s.len() > 0 {
        let init = s.drop_last();
        lemma_words(init);
        assert(s.last() == s[s.len() - 1]);
        assert forall|i: int| 0 <= i < init.len() implies init[i] == #[trigger] s[i] by {}
        if is_ascii_text(s) {
            assert forall|i: int| 0 <= i < init.len() implies #[trigger] init[i] <= '\u{7f}' by {
                assert(init[i] == s[i]);
            }
        }
        if white_space(s.last()) {
            if all_white(init) {
                assert forall|i: int| 0 <= i < s.len() implies white_space(#[trigger] s[i]) by {
                    if i < init.len() {
                        assert(init[i] == s[i]);
                    }
                }
            } else {
                let i = choose|i: int| 0 <= i < init.len() && !white_space(#[trigger] init[i]);
                assert(!white_space(s[i]));
            }
        } else if s.len() > 1 && !white_space(s[s.len() - 2]) {
            assert(init.last() == s[s.len() - 2]);
            lemma_words_non_empty(init);
            let before = words(init);
            let longer = before.last().push(s.last());
            assert(before.last() == before[before.len() - 1]);
            assert(words(s) == before.drop_last().push(longer));
            assert(is_word(longer));
            if is_ascii_text(s) {
                assert(is_ascii_text(before[before.len() - 1]));
                assert(is_ascii_text(longer));
            }
            assert forall|k: int| 0 <= k < words(s).len() implies is_word(
                #[trigger] words(s)[k],
            ) by {
                if k < before.len() - 1 {
                    assert(words(s)[k] == before[k]);
                }
            }
            if is_ascii_text(s) {
                assert forall|k: int| 0 <= k < words(s).len() implies is_ascii_text(
                    #[trigger] words(s)[k],
                ) by {
                    if k < before.len() - 1 {
                        assert(words(s)[k] == before[k]);
                    }
                }
            }
        } else {
            assert(is_word(seq![s.last()]));
            assert(is_ascii_text(s) ==> is_ascii_text(seq![s.last()]));
        }
    }
}

/// A text that ends in a character other than white space has a last word.
pub proof fn lemma_words_non_empty(s: Seq<char>)
    requires
        s.len() > 0,
        !white_space(s.last()),
    ensures
        words(s).len() > 0,
    decreases s.len(),
{
}

/// The words of a text: its maximal runs of characters other than white space.
pub fn split_words(s: &str) -> (r: Vec<String>)
    ensures
        texts(r@) == words(s@),
{
    let v = chars_of(s);
    let mut out: Vec<String> = Vec::new();
    let mut i: usize = 0;
    while i < v.len()
        invariant
            i <= v.len(),
            v@ == s@,
            texts(out@) == words(s@.take(i as int)),
        decreases v.len() - i,
    {
        let c = v[i];
        let ghost before = out@;
        assert(s@.take(i + 1).drop_last() =~= s@.take(i as int));
        if !is_white_space(c) {
            if i == 0 || is_white_space(v[i - 1]) {
                let mut word = String::new();
                word.push(c);
                assert(word@ =~= seq![c]);
                out.push(word);
                assert(texts(out@) =~= texts(before).push(seq![c]));
            } else {
                proof {
                    lemma_words_non_empty(s@.take(i as int));
                    assert(texts(before).len() == before.len());
                }
                if let Some(mut word) = out.pop() {
                    word.push(c);
                    out.push(word);
                }
                assert(texts(out@) =~= texts(before).drop_last().push(
                    texts(before).last().push(c),
                ));
            }
        }
        i += 1;
    }
    assert(s@.take(s@.len() as int) =~= s@);
    out
}

/// The texts one after another, with one space between each and the next.
pub open spec fn joined(ws: Seq<Seq<char>>) -> Seq<char>
    decreases ws.len(),
{
    if ws.len() == 0 {
        Seq::empty()
    } else if ws.len() == 1 {
        ws[0]
    } else {
        joined(ws.drop_last()).push(' ') + ws.last()
    }
}

/// Words that are joined make an empty text only where there are none.
pub proof fn lemma_joined_length(ws: Seq<Seq<char>>)
    requires
        forall|k: int| 0 <= k < ws.len() ==> (#[trigger] ws[k]).len() > 0,
    ensures
        joined(ws).len() == 0 <==> ws.len() == 0,
{
    if ws.len() > 0 {
        assert(ws[ws.len() - 1].len() > 0);
    }
}

/// The texts one after another, with one space between each and the next.
pub(crate) fn join(ws: &Vec<String>) -> (r: String)
    ensures
        r@ == joined(texts(ws@)),
{
    let mut out = String::new();
    let mut i: usize = 0;
    while i < ws.len()
        invariant
            i <= ws.len(),
            out@ == joined(texts(ws@).take(i as int)),
        decreases ws.len() - i,
    {
        if i > 0 {
            out.push(' ');
        }
        out.append(ws[i].as_str());
        let ghost so_far = texts(ws@).take(i + 1);
        assert(so_far.drop_last() =~= texts(ws@).take(i as int));
        assert(so_far.last() == ws@[i as int]@);
        if i == 0 {
            assert(out@ =~= so_far[0]);
        }
        i += 1;
    }
    assert(texts(ws@).take(ws@.len() as int) =~= texts(ws@));
    out
}

// --- Substrings ------------------------------------------------------------

/// `needle` stands in `hay` at position `i`.
pub open spec fn occurs_at(hay: Seq<char>, needle: Seq<char>, i: int) -> bool {
    0 <= i && i + needle.len() <= hay.len() && hay.subrange(i, i + needle.len()) == needle
}

/// `needle` stands somewhere in `hay`.
pub open spec fn contains_text(hay: Seq<char>, needle: Seq<char>) -> bool {
    exists|i: int| occurs_at(hay, needle, i)
}

/// Whether `needle` stands somewhere in `hay`.
pub fn contains(hay: &str, needle: &str) -> (r: bool)
    ensures
        r == contains_text(hay@, needle@),
{
    let h = chars_of(hay);
    let n = chars_of(needle);
    if n.len() > h.len() {
        return false;
    }
    let last: usize = h.len() - n.len();
    let mut i: usize = 0;
    loop
        invariant
            i <= last,
            last == h.len() - n.len(),
            h@ == hay@,
            n@ == needle@,
            forall|k: int| 0 <= k < i ==> !occurs_at(hay@, needle@, k),
        decreases last - i,
    {
        let mut j: usize = 0;
        while j < n.len() && h[i + j] == n[j]
            invariant
                i <= last,
                last == h.len() - n.len(),
                j <= n.len(),
                forall|k: int| 0 <= k < j ==> h@[i + k] == n@[k],
            decreases n.len() - j,
        {
            j += 1;
        }
        if j == n.len() {
            assert(hay@.subrange(i as int, i + n@.len()) =~= needle@);
            assert(occurs_at(hay@, needle@, i as int));
            return true;
        }
        assert(!occurs_at(hay@, needle@, i as int)) by {
            if occurs_at(hay@, needle@, i as int) {
                assert(hay@.subrange(i as int, i + n@.len())[j as int] == needle@[j as int]);
            }
        }
        if i == last {
            return false;
        }
        i += 1;
    }
}

/// The number of bytes of a text in UTF-8.
pub open spec fn byte_len(s: Seq<char>) -> nat {
    vstd::utf8::encode_utf8(s).len()
}

/// The number of bytes of a text in UTF-8.
pub(crate) fn utf8_len(s: &str) -> (r: usize)
    ensures
        r == byte_len(s@),
{
    s.as_bytes().len()
}

/// What is kept of the first elements is the beginning of what is kept of all,
/// and is all of it where no element follows.
pub proof fn lemma_filter_of_prefix(
    s: Seq<Seq<char>>,
    p: spec_fn(Seq<char>) -> bool,
    n: int,
)
    requires
        0 <= n <= s.len(),
    ensures
        s.take(n).filter(p).is_prefix_of(s.filter(p)),
        n == s.len() ==> s.take(n).filter(p) == s.filter(p),
    decreases s.len(),
{
    reveal(Seq::filter);
    if n == s.len() {
        assert(s.take(n) =~= s);
    } else {
        lemma_filter_of_prefix(s.drop_last(), p, n);
        assert(s.drop_last().take(n) =~= s.take(n));
    }
}

} // verus!
