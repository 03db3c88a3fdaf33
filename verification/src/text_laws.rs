//! What holds of the text primitives, stated on the texts themselves.

use crate::text;
use vstd::prelude::*;

verus! {

/// The text neither begins nor ends with white space.
pub open spec fn bare_ends(s: Seq<char>) -> bool {
    s.len() > 0 ==> !text::white_space(s[0]) && !text::white_space(s[s.len() - 1])
}

/// Trimming takes white space off both ends of a text, and nothing else: the
/// text is white space, then what is left, then white space.
pub proof fn trim_takes_white_space_off_the_ends(s: Seq<char>) -> (r: (Seq<char>, Seq<char>))
    ensures
        s == r.0 + text::trimmed(s) + r.1,
        text::all_white(r.0),
        text::all_white(r.1),
        bare_ends(text::trimmed(s)),
{
    let a = lemma_trim_start_takes(s);
    let t = text::trim_start(s);
    let b = lemma_trim_end_takes(t);
    let u = text::trim_end(t);
    assert(s =~= a + u + b);
    if u.len() > 0 {
        assert(u[0] == t[0]);
    }
    (a, b)
}

/// Whatever white space stands around a text that neither begins nor ends with
/// any, trimming leaves that text.
pub proof fn trim_finds_what_is_between(a: Seq<char>, t: Seq<char>, b: Seq<char>)
    requires
        text::all_white(a),
        text::all_white(b),
        bare_ends(t),
    ensures
        text::trimmed(a + t + b) == t,
{
    let s = a + t + b;
    let (c, d) = trim_takes_white_space_off_the_ends(s);
    let u = text::trimmed(s);
    if t.len() == 0 {
        if u.len() > 0 {
            assert(s[c.len() as int] == u[0]);
            assert(text::white_space(s[c.len() as int])) by {
                if c.len() < a.len() {
                    assert(s[c.len() as int] == a[c.len() as int]);
                } else {
                    assert(s[c.len() as int] == b[c.len() - a.len()]);
                }
            }
        }
        assert(u =~= t);
    } else {
        assert(s[a.len() as int] == t[0]);
        assert(s[a.len() + t.len() - 1] == t[t.len() - 1]);
        if u.len() == 0 {
            assert(text::white_space(s[a.len() as int])) by {
                if a.len() < c.len() {
                    assert(s[a.len() as int] == c[a.len() as int]);
                } else {
                    assert(s[a.len() as int] == d[a.len() - c.len()]);
                }
            }
        }
        assert(s[c.len() as int] == u[0]);
        assert(s[c.len() + u.len() - 1] == u[u.len() - 1]);
        if c.len() < a.len() {
            assert(s[c.len() as int] == a[c.len() as int]);
        }
        if a.len() < c.len() {
            assert(s[a.len() as int] == c[a.len() as int]);
        }
        assert(a.len() == c.len());
        if d.len() < b.len() {
            let i = c.len() + u.len() - 1;
            assert(s[i] == b[i - a.len() - t.len()]);
        }
        if b.len() < d.len() {
            let i = a.len() + t.len() - 1;
            assert(s[i] == d[i - c.len() - u.len()]);
        }
        assert(u =~= s.subrange(c.len() as int, c.len() as int + u.len()));
        assert(t =~= s.subrange(a.len() as int, a.len() as int + t.len()));
    }
}

proof fn lemma_trim_start_takes(s: Seq<char>) -> (a: Seq<char>)
    ensures
        s == a + text::trim_start(s),
        text::all_white(a),
        text::trim_start(s).len() > 0 ==> !text::white_space(text::trim_start(s)[0]),
    decreases s.len(),
{
    if s.len() > 0 && text::white_space(s[0]) {
        let rest = s.drop_first();
        let b = lemma_trim_start_takes(rest);
        let a = seq![s[0]] + b;
        let kept = text::trim_start(rest);
        assert(text::trim_start(s) == kept);
        assert(seq![s[0]] + (b + kept) =~= a + kept);
        assert(s =~= seq![s[0]] + rest);
        assert forall|i: int| 0 <= i < a.len() implies text::white_space(#[trigger] a[i]) by {
            if i > 0 {
                assert(a[i] == b[i - 1]);
            }
        }
        a
    } else {
        let a = Seq::<char>::empty();
        assert(s =~= a + text::trim_start(s));
        a
    }
}

proof fn lemma_trim_end_takes(s: Seq<char>) -> (b: Seq<char>)
    ensures
        s == text::trim_end(s) + b,
        text::all_white(b),
        text::trim_end(s).len() > 0 ==> !text::white_space(
            text::trim_end(s)[text::trim_end(s).len() - 1],
        ),
    decreases s.len(),
{
    if s.len() > 0 && text::white_space(s.last()) {
        let rest = s.drop_last();
        let a = lemma_trim_end_takes(rest);
        let b = a.push(s.last());
        let kept = text::trim_end(rest);
        assert(text::trim_end(s) == kept);
        assert((kept + a).push(s.last()) =~= kept + b);
        assert(s =~= rest.push(s.last()));
        b
    } else {
        let b = Seq::<char>::empty();
        assert(s =~= text::trim_end(s) + b);
        b
    }
}

/// A text holds another wherever that stands: after any beginning and before
/// any end.
pub proof fn text_is_held_anywhere(before: Seq<char>, needle: Seq<char>, after: Seq<char>)
    ensures
        text::contains_text(before + needle + after, needle),
{
    let hay = before + needle + after;
    let i = before.len() as int;
    assert(hay.subrange(i, i + needle.len()) =~= needle);
    assert(text::occurs_at(hay, needle, i));
}

/// A text that holds another is a beginning, then the other, then an end.
pub proof fn held_text_has_a_place(hay: Seq<char>, needle: Seq<char>) -> (r: (Seq<char>, Seq<char>))
    requires
        text::contains_text(hay, needle),
    ensures
        hay == r.0 + needle + r.1,
{
    let i = choose|i: int| text::occurs_at(hay, needle, i);
    let before = hay.subrange(0, i);
    let after = hay.subrange(i + needle.len(), hay.len() as int);
    assert(hay =~= before + needle + after);
    (before, after)
}

/// The first characters of a text are as many as there is room for, and what
/// follows them completes the text.
pub proof fn first_chars_begin_the_text(s: Seq<char>, max: nat) -> (rest: Seq<char>)
    ensures
        s == text::first_chars(s, max) + rest,
        text::first_chars(s, max).len() <= max,
        text::first_chars(s, max).len() < max ==> rest.len() == 0,
{
    let head = text::first_chars(s, max);
    let rest = s.subrange(head.len() as int, s.len() as int);
    assert(s =~= head + rest);
    rest
}

/// The texts of strings are what each of them holds, in order.
pub proof fn texts_are_those_of_the_strings(v: Seq<String>)
    ensures
        text::texts(v).len() == v.len(),
        forall|i: int| 0 <= i < v.len() ==> #[trigger] text::texts(v)[i] == v[i]@,
{
}

/// Lowercasing an ASCII text keeps its length, leaves no capital, and changes
/// no other character.
pub proof fn ascii_lowercase_changes_capitals_only(s: Seq<char>, i: int)
    requires
        text::is_ascii_text(s),
        0 <= i < s.len(),
    ensures
        text::lowercase(s).len() == s.len(),
        'A' <= s[i] <= 'Z' ==> text::lowercase(s)[i] as int == s[i] as int + 32,
        !('A' <= s[i] <= 'Z') ==> text::lowercase(s)[i] == s[i],
{
}

/// Nothing is left of a text by trimming exactly where it is white space.
pub proof fn trim_empties_white_space_only(s: Seq<char>)
    ensures
        text::trimmed(s).len() == 0 <==> text::all_white(s),
{
    let (a, b) = trim_takes_white_space_off_the_ends(s);
    let t = text::trimmed(s);
    if t.len() == 0 {
        assert forall|i: int| 0 <= i < s.len() implies text::white_space(#[trigger] s[i]) by {
            if i < a.len() {
                assert(s[i] == a[i]);
            } else {
                assert(s[i] == b[i - a.len()]);
            }
        }
    } else {
        assert(s[a.len() as int] == t[0]);
    }
}

} // verus!
