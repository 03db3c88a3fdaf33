//! What holds of imports and of categorization as a whole, across calls.

use crate::categorize;
use crate::csv_import;
use crate::db;
use crate::ledger;
use crate::model;
use crate::model::Source;
use crate::text;
use crate::text_laws;
use vstd::prelude::*;

verus! {

// --- Normalization ---------------------------------------------------------

/// White space at the end of a text adds no words.
proof fn lemma_words_before_white(a: Seq<char>, ws: Seq<char>)
    requires
        text::all_white(ws),
    ensures
        text::words(a + ws) == text::words(a),
    decreases ws.len(),
{
    if ws.len() == 0 {
        assert(a + ws =~= a);
    } else {
        let init = ws.drop_last();
        assert((a + ws).drop_last() =~= a + init);
        assert forall|i: int| 0 <= i < init.len() implies text::white_space(#[trigger] init[i]) by {
            assert(init[i] == ws[i]);
        }
        assert(text::white_space((a + ws).last()));
        lemma_words_before_white(a, init);
    }
}

/// White space between two texts keeps their words apart.
pub proof fn white_space_keeps_words_apart(a: Seq<char>, ws: Seq<char>, b: Seq<char>)
    requires
        text::all_white(ws),
        ws.len() > 0,
    ensures
        text::words(a + ws + b) == text::words(a) + text::words(b),
    decreases b.len(),
{
    let s = a + ws + b;
    if b.len() == 0 {
        assert(s =~= a + ws);
        lemma_words_before_white(a, ws);
        assert(text::words(a) + text::words(b) =~= text::words(a));
    } else {
        let init = b.drop_last();
        white_space_keeps_words_apart(a, ws, init);
        assert(s.drop_last() =~= a + ws + init);
        assert(s.last() == b.last());
        let before = text::words(a);
        if !text::white_space(b.last()) {
            if b.len() == 1 {
                assert(s[s.len() - 2] == ws.last());
                assert(before + text::words(b) =~= (before + text::words(init)).push(
                    seq![b.last()],
                ));
            } else {
                assert(s[s.len() - 2] == b[b.len() - 2]);
                if text::white_space(b[b.len() - 2]) {
                    assert(before + text::words(b) =~= (before + text::words(init)).push(
                        seq![b.last()],
                    ));
                } else {
                    assert(init.last() == b[b.len() - 2]);
                    text::lemma_words_non_empty(init);
                    let w = before + text::words(init);
                    assert(w.last() == text::words(init).last());
                    assert(w.drop_last() =~= before + text::words(init).drop_last());
                    assert(before + text::words(b) =~= w.drop_last().push(
                        w.last().push(b.last()),
                    ));
                }
            }
        }
    }
}

/// How much white space stands between two parts of a text makes no difference
/// to its normalized form, as long as there is some: the same statement with
/// one space and with two compares equal.
pub proof fn normalize_ignores_width_of_gaps(
    a: Seq<char>,
    gap1: Seq<char>,
    gap2: Seq<char>,
    b: Seq<char>,
)
    requires
        gap1.len() > 0,
        gap2.len() > 0,
        text::all_white(gap1),
        text::all_white(gap2),
    ensures
        categorize::normalized(a + gap1 + b) == categorize::normalized(a + gap2 + b),
{
    white_space_keeps_words_apart(a, gap1, b);
    white_space_keeps_words_apart(a, gap2, b);
}

/// White space around a text makes no difference to its normalized form.
pub proof fn normalize_ignores_outer_white_space(before: Seq<char>, s: Seq<char>, after: Seq<char>)
    requires
        text::all_white(before),
        text::all_white(after),
    ensures
        categorize::normalized(before + s + after) == categorize::normalized(s),
{
    lemma_words_before_white(before + s, after);
    let empty = Seq::<char>::empty();
    if before.len() > 0 {
        white_space_keeps_words_apart(empty, before, s);
        assert(empty + before + s =~= before + s);
        assert(text::words(empty) + text::words(s) =~= text::words(s));
    } else {
        assert(before + s =~= s);
    }
}

/// A word is the only word of itself.
pub proof fn a_word_is_its_only_word(w: Seq<char>)
    requires
        text::is_word(w),
    ensures
        text::words(w) == seq![w],
    decreases w.len(),
{
    let init = w.drop_last();
    assert(!text::white_space(w[w.len() - 1]));
    if w.len() == 1 {
        assert(text::words(init) =~= Seq::<Seq<char>>::empty());
        assert(w =~= seq![w.last()]);
        assert(text::words(w) =~= seq![w]);
    } else {
        assert forall|i: int| 0 <= i < init.len() implies !text::white_space(
            #[trigger] init[i],
        ) by {
            assert(init[i] == w[i]);
        }
        a_word_is_its_only_word(init);
        assert(!text::white_space(w[w.len() - 2]));
        assert(init.push(w.last()) =~= w);
        assert(text::words(w) =~= seq![w]);
    }
}

/// Words that are joined are the words of the text that they make.
pub proof fn joined_words_are_its_words(ws: Seq<Seq<char>>)
    requires
        forall|k: int| 0 <= k < ws.len() ==> text::is_word(#[trigger] ws[k]),
    ensures
        text::words(text::joined(ws)) == ws,
    decreases ws.len(),
{
    if ws.len() == 0 {
        assert(text::words(text::joined(ws)) =~= ws);
    } else if ws.len() == 1 {
        a_word_is_its_only_word(ws[0]);
        assert(ws =~= seq![ws[0]]);
    } else {
        let init = ws.drop_last();
        assert forall|k: int| 0 <= k < init.len() implies text::is_word(#[trigger] init[k]) by {
            assert(init[k] == ws[k]);
        }
        joined_words_are_its_words(init);
        assert(text::is_word(ws[ws.len() - 1]));
        a_word_is_its_only_word(ws.last());
        let gap = seq![' '];
        white_space_keeps_words_apart(text::joined(init), gap, ws.last());
        assert(text::joined(ws) =~= text::joined(init) + gap + ws.last());
        assert(init + seq![ws.last()] =~= ws);
    }
}

/// White space stands in the text as single spaces between other characters
/// only.
pub open spec fn singly_spaced(s: Seq<char>) -> bool {
    forall|i: int|
        0 <= i < s.len() && text::white_space(#[trigger] s[i]) ==> {
            &&& s[i] == ' '
            &&& 0 < i < s.len() - 1
            &&& !text::white_space(s[i - 1])
            &&& !text::white_space(s[i + 1])
        }
}

/// Words that are joined are singly spaced.
pub proof fn lemma_joined_is_singly_spaced(ws: Seq<Seq<char>>)
    requires
        forall|k: int| 0 <= k < ws.len() ==> text::is_word(#[trigger] ws[k]),
    ensures
        singly_spaced(text::joined(ws)),
    decreases ws.len(),
{
    if ws.len() == 1 {
        assert(text::is_word(ws[0]));
    } else if ws.len() > 1 {
        let init = ws.drop_last();
        assert forall|k: int| 0 <= k < init.len() implies text::is_word(#[trigger] init[k]) by {
            assert(init[k] == ws[k]);
        }
        lemma_joined_is_singly_spaced(init);
        let a = text::joined(init);
        let w = ws.last();
        let s = text::joined(ws);
        assert(text::is_word(ws[ws.len() - 1]));
        assert forall|k: int| 0 <= k < init.len() implies (#[trigger] init[k]).len() > 0 by {
            assert(text::is_word(init[k]));
        }
        text::lemma_joined_length(init);
        assert(s == a.push(' ') + w);
        assert forall|i: int| 0 <= i < s.len() && text::white_space(#[trigger] s[i]) implies ({
            &&& s[i] == ' '
            &&& 0 < i < s.len() - 1
            &&& !text::white_space(s[i - 1])
            &&& !text::white_space(s[i + 1])
        }) by {
            if i < a.len() {
                assert(s[i] == a[i]);
                assert(s[i - 1] == a[i - 1]);
                assert(s[i + 1] == a[i + 1]);
            } else if i == a.len() {
                assert(s[i - 1] == a[i - 1]);
                assert(!text::white_space(a[a.len() - 1]));
                assert(s[i + 1] == w[0]);
            } else {
                assert(s[i] == w[i - a.len() - 1]);
            }
        }
    }
}

/// Collapsing the white space of a text keeps its words, leaves single spaces
/// between them and none at the ends, and is done once and for all. Nothing is
/// left only of a text of white space.
pub proof fn collapse_keeps_the_words(s: Seq<char>)
    ensures
        text::words(categorize::collapsed(s)) == text::words(s),
        singly_spaced(categorize::collapsed(s)),
        categorize::collapsed(categorize::collapsed(s)) == categorize::collapsed(s),
        categorize::collapsed(s).len() == 0 <==> text::all_white(s),
{
    let ws = text::words(s);
    text::lemma_words(s);
    joined_words_are_its_words(ws);
    lemma_joined_is_singly_spaced(ws);
    assert forall|k: int| 0 <= k < ws.len() implies (#[trigger] ws[k]).len() > 0 by {
        assert(text::is_word(ws[k]));
    }
    text::lemma_joined_length(ws);
}

/// Lowercasing an ASCII text lowercases its words.
proof fn lemma_words_of_lowercase(s: Seq<char>)
    ensures
        text::words(text::ascii_lowercase(s)) == text::words(s).map_values(
            |w: Seq<char>| text::ascii_lowercase(w),
        ),
    decreases s.len(),
{
    let lower = |w: Seq<char>| text::ascii_lowercase(w);
    let t = text::ascii_lowercase(s);
    if s.len() == 0 {
        assert(text::words(t) =~= text::words(s).map_values(lower));
    } else {
        let init = s.drop_last();
        lemma_words_of_lowercase(init);
        assert(t.drop_last() =~= text::ascii_lowercase(init));
        assert(t.last() == text::ascii_lowercase_char(s.last()));
        assert(text::white_space(t.last()) == text::white_space(s.last()));
        let before = text::words(init);
        if !text::white_space(s.last()) {
            if s.len() > 1 {
                assert(t[s.len() - 2] == text::ascii_lowercase_char(s[s.len() - 2]));
                assert(text::white_space(t[s.len() - 2]) == text::white_space(s[s.len() - 2]));
            }
            if s.len() == 1 || text::white_space(s[s.len() - 2]) {
                assert(lower(seq![s.last()]) =~= seq![t.last()]);
                assert(before.push(seq![s.last()]).map_values(lower) =~= before.map_values(
                    lower,
                ).push(seq![t.last()]));
            } else {
                assert(init.last() == s[s.len() - 2]);
                text::lemma_words_non_empty(init);
                let w = before.last();
                assert(lower(w.push(s.last())) =~= lower(w).push(t.last()));
                assert(before.map_values(lower).last() == lower(w));
                assert(before.drop_last().push(w.push(s.last())).map_values(lower)
                    =~= before.map_values(lower).drop_last().push(lower(w).push(t.last())));
            }
        }
    }
}

/// ASCII words that are joined make an ASCII text.
proof fn lemma_joined_is_ascii(ws: Seq<Seq<char>>)
    requires
        forall|k: int| 0 <= k < ws.len() ==> text::is_ascii_text(#[trigger] ws[k]),
    ensures
        text::is_ascii_text(text::joined(ws)),
    decreases ws.len(),
{
    if ws.len() == 1 {
        assert(text::is_ascii_text(ws[0]));
    } else if ws.len() > 1 {
        let init = ws.drop_last();
        assert forall|k: int| 0 <= k < init.len() implies text::is_ascii_text(
            #[trigger] init[k],
        ) by {
            assert(init[k] == ws[k]);
        }
        lemma_joined_is_ascii(init);
        assert(text::is_ascii_text(ws[ws.len() - 1]));
    }
}

/// On a text of ASCII characters, normalizing gives the lowercased words of the
/// text with single spaces between them and none at the ends, is done once and
/// for all, and leaves nothing only of a text of white space.
pub proof fn normalize_settles_ascii_text(s: Seq<char>)
    requires
        text::is_ascii_text(s),
    ensures
        text::words(categorize::normalized(s)) == text::words(s).map_values(
            |w: Seq<char>| text::ascii_lowercase(w),
        ),
        singly_spaced(categorize::normalized(s)),
        categorize::normalized(categorize::normalized(s)) == categorize::normalized(s),
        categorize::normalized(s).len() == 0 <==> text::all_white(s),
{
    let c = categorize::collapsed(s);
    let n = categorize::normalized(s);
    collapse_keeps_the_words(s);
    text::lemma_words(s);
    lemma_joined_is_ascii(text::words(s));
    assert(n == text::ascii_lowercase(c));
    lemma_words_of_lowercase(c);
    assert forall|i: int| 0 <= i < n.len() implies text::white_space(#[trigger] n[i])
        == text::white_space(c[i]) && (c[i] == ' ' ==> n[i] == ' ') by {}
    assert forall|i: int| 0 <= i < n.len() && text::white_space(#[trigger] n[i]) implies ({
        &&& n[i] == ' '
        &&& 0 < i < n.len() - 1
        &&& !text::white_space(n[i - 1])
        &&& !text::white_space(n[i + 1])
    }) by {
        assert(text::white_space(c[i]));
        assert(text::white_space(n[i - 1]) == text::white_space(c[i - 1]));
        assert(text::white_space(n[i + 1]) == text::white_space(c[i + 1]));
    }
    lemma_collapsed_when_singly_spaced(n);
    assert(text::is_ascii_text(n));
    assert(text::ascii_lowercase(n) =~= n);
}

/// The normalized form of a text is the lowercased line of its words, with
/// single spaces between them and none at the ends.
pub proof fn normalized_text_is_the_lowercased_words(s: Seq<char>) -> (line: Seq<char>)
    ensures
        categorize::normalized(s) == text::lowercase(line),
        text::words(line) == text::words(s),
        singly_spaced(line),
{
    collapse_keeps_the_words(s);
    categorize::collapsed(s)
}

/// Normalizing is done once and for all, wherever lowercasing is and leaves
/// single spaces.
pub proof fn normalize_settles_where_lowercasing_does(s: Seq<char>)
    requires
        text::lowercase(categorize::normalized(s)) == categorize::normalized(s),
        singly_spaced(categorize::normalized(s)),
    ensures
        categorize::normalized(categorize::normalized(s)) == categorize::normalized(s),
{
    lemma_collapsed_when_singly_spaced(categorize::normalized(s));
}

/// A text that is singly spaced stays as it is when it is collapsed.
proof fn lemma_collapsed_when_singly_spaced(s: Seq<char>)
    requires
        singly_spaced(s),
    ensures
        categorize::collapsed(s) == s,
{
    lemma_collapsed_prefix(s, s.len() as int);
    assert(s.take(s.len() as int) =~= s);
}

/// So does each of its beginnings, unless that ends in white space.
proof fn lemma_collapsed_prefix(s: Seq<char>, n: int)
    requires
        singly_spaced(s),
        0 <= n <= s.len(),
        n > 0 ==> !text::white_space(s[n - 1]) || n == s.len(),
    ensures
        categorize::collapsed(s.take(n)) == s.take(n),
    decreases n,
{
    let t = s.take(n);
    if n == 0 {
        assert(text::words(t) =~= Seq::<Seq<char>>::empty());
        assert(categorize::collapsed(t) =~= t);
    } else {
        assert(!text::white_space(s[n - 1]));
        assert(t.last() == s[n - 1]);
        assert(t.drop_last() =~= s.take(n - 1));
        if n == 1 {
            assert(text::words(s.take(0)) =~= Seq::<Seq<char>>::empty());
            assert(text::words(t) =~= seq![seq![t.last()]]);
            assert(categorize::collapsed(t) =~= t);
        } else if text::white_space(s[n - 2]) {
            assert(s[n - 2] == ' ');
            assert(!text::white_space(s[n - 3]));
            lemma_collapsed_prefix(s, n - 2);
            assert(t[n - 2] == s[n - 2]);
            let u = s.take(n - 1);
            assert(u.drop_last() =~= s.take(n - 2));
            assert(u.last() == s[n - 2]);
            let before = text::words(s.take(n - 2));
            assert(text::words(u) == before);
            assert(text::words(t) == before.push(seq![t.last()]));
            assert(s.take(n - 2).last() == s[n - 3]);
            text::lemma_words_non_empty(s.take(n - 2));
            assert(text::words(t).drop_last() =~= before);
            assert(categorize::collapsed(t) =~= t);
        } else {
            lemma_collapsed_prefix(s, n - 1);
            assert(t[n - 2] == s[n - 2]);
            let before = text::words(s.take(n - 1));
            assert(s.take(n - 1).last() == s[n - 2]);
            text::lemma_words_non_empty(s.take(n - 1));
            let longer = before.last().push(t.last());
            assert(text::words(t) == before.drop_last().push(longer));
            assert(text::words(t).drop_last() =~= before.drop_last());
            assert(text::joined(text::words(t)) =~= text::joined(before).push(t.last()));
            assert(categorize::collapsed(t) =~= t);
        }
    }
}

// --- Identity of the transactions ------------------------------------------

/// The rows stand for the same transactions, whatever their categories.
pub open spec fn same_transactions(a: ledger::Tables, b: ledger::Tables) -> bool {
    &&& a.transactions.len() == b.transactions.len()
    &&& forall|i: int|
        0 <= i < a.transactions.len() ==> {
            &&& (#[trigger] a.transactions[i]).id == b.transactions[i].id
            &&& a.transactions[i].description == b.transactions[i].description
        }
}

/// Seeding, applying rules, adding a rule and categorizing by id all keep the
/// transactions themselves: only categories change.
pub proof fn categorization_keeps_transactions(
    t: ledger::Tables,
    ms: Seq<categorize::MonarchModel>,
    pattern: Seq<char>,
    category: Seq<char>,
    id: int,
)
    ensures
        same_transactions(categorize::seeded(t, ms), t),
        same_transactions(categorize::rules_applied(t), t),
        same_transactions(categorize::rule_added(t, pattern, category), t),
        same_transactions(categorize::categorized_by_id(t, id, category), t),
    decreases ms.len(),
{
    if ms.len() > 0 {
        categorization_keeps_transactions(t, ms.drop_last(), pattern, category, id);
        let s = categorize::seeded(t, ms.drop_last());
        let u = categorize::seeded(t, ms);
        assert forall|i: int| 0 <= i < u.transactions.len() implies ({
            &&& (#[trigger] u.transactions[i]).id == t.transactions[i].id
            &&& u.transactions[i].description == t.transactions[i].description
        }) by {
            assert(s.transactions[i].id == t.transactions[i].id);
        }
    }
}

// --- Seeding ---------------------------------------------------------------

/// A category that has been assigned stays: seeding never overwrites one.
pub proof fn seed_never_overwrites(
    t: ledger::Tables,
    ms: Seq<categorize::MonarchModel>,
    i: int,
)
    requires
        0 <= i < t.transactions.len(),
        t.transactions[i].category is Some,
    ensures
        categorize::seeded(t, ms).transactions[i] == t.transactions[i],
        categorize::seeded(t, ms).transactions.len() == t.transactions.len(),
    decreases ms.len(),
{
    if ms.len() > 0 {
        seed_never_overwrites(t, ms.drop_last(), i);
    }
}

/// Row `k` of an export has a category and is about this description.
pub open spec fn statement_matches(
    ms: Seq<categorize::MonarchModel>,
    k: int,
    description: Seq<char>,
) -> bool {
    &&& 0 <= k < ms.len()
    &&& text::trimmed(ms[k].category).len() > 0
    &&& categorize::normalized(ms[k].original_statement) == categorize::normalized(description)
}

/// The first row of an export that is about this description.
pub open spec fn first_statement_match(
    ms: Seq<categorize::MonarchModel>,
    k: int,
    description: Seq<char>,
) -> bool {
    &&& statement_matches(ms, k, description)
    &&& forall|j: int| 0 <= j < k ==> !statement_matches(ms, j, description)
}

/// Seeding gives an uncategorized transaction the category of the first row of
/// the export that is about it.
pub proof fn seed_takes_first_match(
    t: ledger::Tables,
    ms: Seq<categorize::MonarchModel>,
    i: int,
    k: int,
)
    requires
        0 <= i < t.transactions.len(),
        t.transactions[i].category is None,
        first_statement_match(ms, k, t.transactions[i].description),
    ensures
        categorize::seeded(t, ms).transactions.len() == t.transactions.len(),
        categorize::seeded(t, ms).transactions[i] == ledger::recategorized(
            t.transactions[i],
            text::trimmed(ms[k].category),
        ),
        categorize::seeded(t, ms).transactions[i].category == Some(text::trimmed(ms[k].category)),
    decreases ms.len(),
{
    let init = ms.drop_last();
    let d = t.transactions[i].description;
    if k < init.len() {
        assert(init[k] == ms[k]);
        assert forall|j: int| 0 <= j < k implies !statement_matches(init, j, d) by {
            assert(!statement_matches(ms, j, d));
        }
        seed_takes_first_match(t, init, i, k);
    } else {
        assert forall|j: int| 0 <= j < init.len() implies !statement_matches(init, j, d) by {
            assert(!statement_matches(ms, j, d));
        }
        seed_leaves_unmatched(t, init, i);
    }
}

/// Seeding leaves a transaction that no row of the export is about as it is.
pub proof fn seed_leaves_unmatched(
    t: ledger::Tables,
    ms: Seq<categorize::MonarchModel>,
    i: int,
)
    requires
        0 <= i < t.transactions.len(),
        forall|k: int| 0 <= k < ms.len() ==> !statement_matches(ms, k, t.transactions[i].description),
    ensures
        categorize::seeded(t, ms).transactions.len() == t.transactions.len(),
        categorize::seeded(t, ms).transactions[i] == t.transactions[i],
    decreases ms.len(),
{
    if ms.len() > 0 {
        let init = ms.drop_last();
        let d = t.transactions[i].description;
        assert forall|k: int| 0 <= k < init.len() implies !statement_matches(init, k, d) by {
            assert(!statement_matches(ms, k, d));
        }
        assert(!statement_matches(ms, ms.len() - 1, d));
        seed_leaves_unmatched(t, init, i);
    }
}

/// Seeding keeps the rules that are there, in their order.
pub proof fn seed_keeps_rules(t: ledger::Tables, ms: Seq<categorize::MonarchModel>)
    ensures
        t.rules.len() <= categorize::seeded(t, ms).rules.len(),
        categorize::seeded(t, ms).rules.take(t.rules.len() as int) == t.rules,
    decreases ms.len(),
{
    if ms.len() > 0 {
        seed_keeps_rules(t, ms.drop_last());
        let s = categorize::seeded(t, ms.drop_last()).rules;
        let u = categorize::seeded(t, ms).rules;
        assert(u.take(t.rules.len() as int) =~= s.take(t.rules.len() as int));
    } else {
        assert(t.rules.take(t.rules.len() as int) =~= t.rules);
    }
}

/// Row `k` of an export has a category and a merchant.
pub open spec fn teaches(ms: Seq<categorize::MonarchModel>, k: int) -> bool {
    &&& 0 <= k < ms.len()
    &&& text::trimmed(ms[k].category).len() > 0
    &&& categorize::normalized(ms[k].merchant).len() > 0
}

/// Every row of an export with a category and a merchant teaches its rule.
pub proof fn seed_learns_every_merchant(
    t: ledger::Tables,
    ms: Seq<categorize::MonarchModel>,
    k: int,
)
    requires
        teaches(ms, k),
    ensures
        ledger::has_rule(
            categorize::seeded(t, ms).rules,
            categorize::normalized(ms[k].merchant),
            text::trimmed(ms[k].category),
        ),
    decreases ms.len(),
{
    let init = ms.drop_last();
    let (p, c) = (categorize::normalized(ms[k].merchant), text::trimmed(ms[k].category));
    let s = categorize::seeded(t, init);
    let u = categorize::seeded(t, ms);
    if k < init.len() {
        assert(init[k] == ms[k]);
        seed_learns_every_merchant(t, init, k);
        let j = choose|j: int| 0 <= j < s.rules.len() && ledger::maps(#[trigger] s.rules[j], p, c);
        assert(u.rules[j] == s.rules[j]);
    } else if !ledger::has_rule(s.rules, p, c) {
        assert(ledger::maps(u.rules[s.rules.len() as int], p, c));
    }
}

/// Every rule that a seed adds is taught by a row of the export, and says that
/// it comes from a seed.
pub proof fn seed_adds_taught_rules_only(
    t: ledger::Tables,
    ms: Seq<categorize::MonarchModel>,
    i: int,
) -> (k: int)
    requires
        t.rules.len() <= i < categorize::seeded(t, ms).rules.len(),
    ensures
        teaches(ms, k),
        categorize::seeded(t, ms).rules[i] == categorize::taught_rule(ms[k]),
        categorize::seeded(t, ms).rules[i].pattern == categorize::normalized(ms[k].merchant),
        categorize::seeded(t, ms).rules[i].category == text::trimmed(ms[k].category),
        categorize::seeded(t, ms).rules[i].origin == "monarch_seed"@,
    decreases ms.len(),
{
    let init = ms.drop_last();
    let before = categorize::seeded(t, init).rules;
    if i < before.len() {
        let k = seed_adds_taught_rules_only(t, init, i);
        assert(init[k] == ms[k]);
        k
    } else {
        ms.len() - 1
    }
}

/// An export that has taken effect changes nothing more, from any of its rows.
proof fn lemma_seeded_row_settled(
    t: ledger::Tables,
    ms: Seq<categorize::MonarchModel>,
    k: int,
)
    requires
        0 <= k < ms.len(),
    ensures
        categorize::seeded_by(categorize::seeded(t, ms), ms[k]) == categorize::seeded(t, ms),
{
    let u = categorize::seeded(t, ms);
    let m = ms[k];
    let v = categorize::seeded_by(u, m);
    if text::trimmed(m.category).len() > 0 {
        assert forall|i: int| 0 <= i < u.transactions.len() implies categorize::seeded_row(
            m,
            #[trigger] u.transactions[i],
        ) == u.transactions[i] by {
            categorization_keeps_transactions(t, ms, Seq::empty(), Seq::empty(), 0);
            let d = t.transactions[i].description;
            assert(u.transactions[i].description == d);
            if categorize::normalized(d) == categorize::normalized(m.original_statement) {
                if t.transactions[i].category is Some {
                    seed_never_overwrites(t, ms, i);
                } else {
                    assert(statement_matches(ms, k, d));
                    let f = lemma_first_match(ms, k, d);
                    seed_takes_first_match(t, ms, i, f);
                }
            }
        }
        assert(v.transactions =~= u.transactions);
        if categorize::normalized(m.merchant).len() > 0 {
            assert(teaches(ms, k));
            seed_learns_every_merchant(t, ms, k);
        }
        assert(v =~= u);
    }
}

/// Where some row is about a description, there is a first one.
proof fn lemma_first_match(ms: Seq<categorize::MonarchModel>, k: int, d: Seq<char>) -> (f: int)
    requires
        statement_matches(ms, k, d),
    ensures
        first_statement_match(ms, f, d),
    decreases k,
{
    if exists|j: int| 0 <= j < k && statement_matches(ms, j, d) {
        let j = choose|j: int| 0 <= j < k && statement_matches(ms, j, d);
        lemma_first_match(ms, j, d)
    } else {
        k
    }
}

proof fn lemma_seeded_settled(
    t: ledger::Tables,
    ms: Seq<categorize::MonarchModel>,
    n: int,
)
    requires
        0 <= n <= ms.len(),
    ensures
        categorize::seeded(categorize::seeded(t, ms), ms.take(n)) == categorize::seeded(t, ms),
    decreases n,
{
    if n > 0 {
        lemma_seeded_settled(t, ms, n - 1);
        assert(ms.take(n).drop_last() =~= ms.take(n - 1));
        assert(ms.take(n).last() == ms[n - 1]);
        lemma_seeded_row_settled(t, ms, n - 1);
    }
}

/// Seeding twice from the same export is the same as seeding once: the second
/// run categorizes nothing and learns no rule.
pub proof fn seed_is_idempotent(t: ledger::Tables, ms: Seq<categorize::MonarchModel>)
    ensures
        categorize::seeded(categorize::seeded(t, ms), ms) == categorize::seeded(t, ms),
{
    lemma_seeded_settled(t, ms, ms.len() as int);
    assert(ms.take(ms.len() as int) =~= ms);
}

// --- Applying rules --------------------------------------------------------

/// Applying the rules leaves every category that has been assigned.
pub proof fn apply_never_overwrites(t: ledger::Tables, i: int)
    requires
        0 <= i < t.transactions.len(),
        t.transactions[i].category is Some,
    ensures
        categorize::rules_applied(t).transactions[i] == t.transactions[i],
{
}

/// Applying the rules twice is the same as applying them once.
pub proof fn apply_is_idempotent(t: ledger::Tables)
    ensures
        categorize::rules_applied(categorize::rules_applied(t)) == categorize::rules_applied(t),
{
    let u = categorize::rules_applied(t);
    assert(categorize::rules_applied(u).transactions =~= u.transactions);
}

/// A transaction is left without a category only where no rule's pattern
/// stands in its lowercased description.
pub proof fn apply_leaves_only_unmatched(t: ledger::Tables, i: int, j: int)
    requires
        0 <= i < t.transactions.len(),
        0 <= j < t.rules.len(),
        categorize::rules_applied(t).transactions[i].category is None,
    ensures
        !text::contains_text(
            text::lowercase(t.transactions[i].description),
            t.rules[j].pattern,
        ),
{
    let d = text::lowercase(t.transactions[i].description);
    if text::contains_text(d, t.rules[j].pattern) {
        let k = lemma_some_best_rule(t.rules, d, j, t.rules.len() as int);
        assert(t.rules.take(t.rules.len() as int) =~= t.rules);
        assert(categorize::is_best_rule(t.rules, d, k));
    }
}

/// A transaction without a category gets that of a rule whose pattern stands in
/// its lowercased description. No pattern that does is longer, and none of a
/// later rule is as long. The rules stay.
pub proof fn apply_goes_by_the_longest_pattern(t: ledger::Tables, i: int) -> (k: int)
    requires
        0 <= i < t.transactions.len(),
        t.transactions[i].category is None,
        categorize::rules_applied(t).transactions[i].category is Some,
    ensures
        0 <= k < t.rules.len(),
        categorize::rules_applied(t).transactions[i].category == Some(t.rules[k].category),
        text::contains_text(text::lowercase(t.transactions[i].description), t.rules[k].pattern),
        forall|j: int|
            0 <= j < t.rules.len() && text::contains_text(
                text::lowercase(t.transactions[i].description),
                (#[trigger] t.rules[j]).pattern,
            ) ==> text::byte_len(t.rules[j].pattern) <= text::byte_len(t.rules[k].pattern),
        forall|j: int|
            k < j < t.rules.len() && text::contains_text(
                text::lowercase(t.transactions[i].description),
                (#[trigger] t.rules[j]).pattern,
            ) ==> text::byte_len(t.rules[j].pattern) < text::byte_len(t.rules[k].pattern),
        categorize::rules_applied(t).rules == t.rules,
{
    choose|k: int|
        categorize::is_best_rule(t.rules, text::lowercase(t.transactions[i].description), k)
}

/// A transaction without a category gets one exactly where its lowercased
/// description is some text, then the pattern of a rule, then some text; and it
/// is the category of such a rule, with none longer in bytes.
pub proof fn apply_goes_by_the_description(t: ledger::Tables, i: int)
    requires
        0 <= i < t.transactions.len(),
        t.transactions[i].category is None,
    ensures
        ({
            let d = t.transactions[i].description;
            let after = categorize::rules_applied(t).transactions[i];
            &&& after.id == t.transactions[i].id
            &&& after.description == d
            &&& after.category is None <==> forall|j: int|
                0 <= j < t.rules.len() ==> !holds_pattern(d, (#[trigger] t.rules[j]).pattern)
            &&& after.category is Some ==> exists|k: int|
                0 <= k < t.rules.len() && after.category == Some((#[trigger] t.rules[k]).category)
                    && holds_pattern(d, t.rules[k].pattern) && forall|j: int|
                    0 <= j < t.rules.len() && holds_pattern(d, (#[trigger] t.rules[j]).pattern)
                        ==> vstd::utf8::encode_utf8(t.rules[j].pattern).len()
                        <= vstd::utf8::encode_utf8(t.rules[k].pattern).len()
        }),
{
    let d = t.transactions[i].description;
    let after = categorize::rules_applied(t).transactions[i];
    assert forall|j: int| 0 <= j < t.rules.len() implies holds_pattern(
        d,
        (#[trigger] t.rules[j]).pattern,
    ) == text::contains_text(text::lowercase(d), t.rules[j].pattern) by {
        lemma_holds_pattern(d, t.rules[j].pattern);
    }
    if after.category is None {
        assert forall|j: int| 0 <= j < t.rules.len() implies !holds_pattern(
            d,
            (#[trigger] t.rules[j]).pattern,
        ) by {
            apply_leaves_only_unmatched(t, i, j);
        }
    } else {
        let k = apply_goes_by_the_longest_pattern(t, i);
        assert(after.category == Some(t.rules[k].category));
        assert(holds_pattern(d, t.rules[k].pattern));
    }
}

/// Where some pattern stands in a description, there is a rule to go by.
proof fn lemma_some_best_rule(
    rules: Seq<ledger::RuleModel>,
    d: Seq<char>,
    j: int,
    n: int,
) -> (k: int)
    requires
        0 <= j < n <= rules.len(),
        text::contains_text(d, rules[j].pattern),
    ensures
        categorize::is_best_rule(rules.take(n), d, k),
    decreases n,
{
    let s = rules.take(n);
    let last = n - 1;
    if exists|i: int| 0 <= i < last && text::contains_text(d, (#[trigger] rules[i]).pattern) {
        let i = choose|i: int|
            0 <= i < last && text::contains_text(d, (#[trigger] rules[i]).pattern);
        let b = lemma_some_best_rule(rules, d, i, last);
        let r = rules.take(last);
        assert(forall|x: int| 0 <= x < last ==> #[trigger] s[x] == r[x]);
        if text::contains_text(d, rules[last].pattern) && text::byte_len(rules[b].pattern)
            <= text::byte_len(rules[last].pattern) {
            assert forall|x: int|
                0 <= x < s.len() && text::contains_text(d, (#[trigger] s[x]).pattern) implies ({
                ||| text::byte_len(s[x].pattern) < text::byte_len(s[last].pattern)
                ||| text::byte_len(s[x].pattern) == text::byte_len(s[last].pattern) && x <= last
            }) by {
                if x < last {
                    assert(s[x] == r[x]);
                }
            }
            last
        } else {
            assert forall|x: int|
                0 <= x < s.len() && text::contains_text(d, (#[trigger] s[x]).pattern) implies ({
                ||| text::byte_len(s[x].pattern) < text::byte_len(s[b].pattern)
                ||| text::byte_len(s[x].pattern) == text::byte_len(s[b].pattern) && x <= b
            }) by {
                if x < last {
                    assert(s[x] == r[x]);
                }
            }
            b
        }
    } else {
        assert(j == last);
        assert forall|x: int|
            0 <= x < s.len() && text::contains_text(d, (#[trigger] s[x]).pattern) implies x
            == last by {
            assert(s[x] == rules[x]);
        }
        last
    }
}

// --- Adding a rule ---------------------------------------------------------

/// Adding a rule and applying it agree on which transactions match: one without
/// a category becomes the same whether the rule is added or, as the only rule,
/// applied.
pub proof fn added_and_applied_rules_match_alike(t: ledger::Tables, rule: ledger::RuleModel, i: int)
    requires
        0 <= i < t.transactions.len(),
        t.transactions[i].category is None,
    ensures
        categorize::rules_applied(
            ledger::Tables { rules: seq![rule], ..t },
        ).transactions[i] == categorize::rule_added(
            t,
            rule.pattern,
            rule.category,
        ).transactions[i],
{
    let d = text::lowercase(t.transactions[i].description);
    if text::contains_text(d, rule.pattern) {
        assert(categorize::is_best_rule(seq![rule], d, 0));
    }
}

/// After a rule is added it is there, and no rule maps its pattern to another
/// category, so that no later run applies the old mapping again.
pub proof fn added_rule_stands_alone(t: ledger::Tables, pattern: Seq<char>, category: Seq<char>)
    ensures
        ledger::has_rule(categorize::rule_added(t, pattern, category).rules, pattern, category),
        forall|i: int|
            0 <= i < categorize::rule_added(t, pattern, category).rules.len() && (
            #[trigger] categorize::rule_added(t, pattern, category).rules[i]).pattern == pattern
                ==> categorize::rule_added(t, pattern, category).rules[i].category == category,
{
    ledger::lemma_without_conflicts(t.rules, pattern, category);
    let kept = ledger::without_conflicts(t.rules, pattern, category);
    let u = categorize::rule_added(t, pattern, category).rules;
    if !ledger::has_rule(kept, pattern, category) {
        assert(ledger::maps(u[kept.len() as int], pattern, category));
    }
    assert forall|i: int| 0 <= i < u.len() && (#[trigger] u[i]).pattern == pattern implies u[i].category
        == category by {
        if i < kept.len() {
            assert(u[i] == kept[i]);
        }
    }
}

/// Adding a rule keeps every rule for another pattern.
pub proof fn added_rule_keeps_others(
    t: ledger::Tables,
    pattern: Seq<char>,
    category: Seq<char>,
    i: int,
)
    requires
        0 <= i < t.rules.len(),
        t.rules[i].pattern != pattern,
    ensures
        categorize::rule_added(t, pattern, category).rules.contains(t.rules[i]),
{
    ledger::lemma_without_conflicts(t.rules, pattern, category);
    let kept = ledger::without_conflicts(t.rules, pattern, category);
    let u = categorize::rule_added(t, pattern, category).rules;
    assert(kept.contains(t.rules[i]));
    let k = choose|k: int| 0 <= k < kept.len() && kept[k] == t.rules[i];
    assert(u[k] == t.rules[i]);
}

/// After a rule is added, every transaction that it matches is on its category
/// and every other transaction is as it was.
pub proof fn added_rule_reaches_every_match(
    t: ledger::Tables,
    pattern: Seq<char>,
    category: Seq<char>,
    i: int,
)
    requires
        0 <= i < t.transactions.len(),
    ensures
        categorize::pattern_matches(t.transactions[i].description, pattern)
            ==> categorize::rule_added(t, pattern, category).transactions[i].category == Some(
            category,
        ),
        !categorize::pattern_matches(t.transactions[i].description, pattern)
            ==> categorize::rule_added(t, pattern, category).transactions[i] == t.transactions[i],
{
}

/// Adding the same rule again changes nothing.
pub proof fn add_rule_is_idempotent(t: ledger::Tables, pattern: Seq<char>, category: Seq<char>)
    ensures
        categorize::rule_added(categorize::rule_added(t, pattern, category), pattern, category)
            == categorize::rule_added(t, pattern, category),
{
    let u = categorize::rule_added(t, pattern, category);
    let v = categorize::rule_added(u, pattern, category);
    added_rule_stands_alone(t, pattern, category);
    assert(v.transactions =~= u.transactions);
    lemma_filter_keeps_all(u.rules, pattern, category);
}

proof fn lemma_filter_keeps_all(
    rules: Seq<ledger::RuleModel>,
    pattern: Seq<char>,
    category: Seq<char>,
)
    requires
        forall|i: int|
            0 <= i < rules.len() && (#[trigger] rules[i]).pattern == pattern ==> rules[i].category
                == category,
    ensures
        ledger::without_conflicts(rules, pattern, category) == rules,
    decreases rules.len(),
{
    reveal(Seq::filter);
    if rules.len() > 0 {
        let init = rules.drop_last();
        assert forall|i: int| 0 <= i < init.len() && (#[trigger] init[i]).pattern == pattern implies init[i].category
            == category by {
            assert(init[i] == rules[i]);
        }
        lemma_filter_keeps_all(init, pattern, category);
        assert(rules[rules.len() - 1] == rules.last());
        assert(init.push(rules.last()) =~= rules);
    } else {
        assert(ledger::without_conflicts(rules, pattern, category) =~= rules);
    }
}

/// The three counts of an added rule share out the matching transactions: each
/// is counted once.
pub proof fn add_rule_counts_every_match(
    rows: Seq<ledger::RowModel>,
    pattern: Seq<char>,
    category: Seq<char>,
)
    ensures
        categorize::newly_matched(rows, pattern) + categorize::otherwise_matched(
            rows,
            pattern,
            category,
        ) + categorize::rightly_matched(rows, pattern, category) == ledger::count_rows(
            rows,
            |r: ledger::RowModel| categorize::pattern_matches(r.description, pattern),
        ),
    decreases rows.len(),
{
    if rows.len() > 0 {
        add_rule_counts_every_match(rows.drop_last(), pattern, category);
    }
}

/// How many rows satisfy a condition is how many are left of them where only
/// those are kept.
pub proof fn rows_are_counted_one_by_one(
    rows: Seq<ledger::RowModel>,
    p: spec_fn(ledger::RowModel) -> bool,
)
    ensures
        ledger::count_rows(rows, p) == rows.filter(p).len(),
    decreases rows.len(),
{
    reveal(Seq::filter);
    if rows.len() > 0 {
        rows_are_counted_one_by_one(rows.drop_last(), p);
    }
}

/// The lowercased description is some text, then the pattern, then some text.
pub open spec fn holds_pattern(description: Seq<char>, pattern: Seq<char>) -> bool {
    exists|x: Seq<char>, y: Seq<char>|
        text::lowercase(description) == #[trigger] (x + pattern + y)
}

/// A pattern that stands somewhere in a text leaves a text before it and a text
/// behind it, and the other way round.
proof fn lemma_holds_pattern(description: Seq<char>, pattern: Seq<char>)
    ensures
        holds_pattern(description, pattern) == text::contains_text(
            text::lowercase(description),
            pattern,
        ),
{
    let hay = text::lowercase(description);
    if text::contains_text(hay, pattern) {
        let (x, y) = text_laws::held_text_has_a_place(hay, pattern);
        assert(hay == x + pattern + y);
    }
    if holds_pattern(description, pattern) {
        let (x, y) = choose|x: Seq<char>, y: Seq<char>| hay == #[trigger] (x + pattern + y);
        text_laws::text_is_held_anywhere(x, pattern, y);
    }
}

/// After a rule is added, a transaction whose lowercased description is some
/// text, then the pattern, then some text is on the category, whatever it was on
/// before, and every other transaction is as it was.
pub proof fn added_rule_goes_by_the_description(
    t: ledger::Tables,
    pattern: Seq<char>,
    category: Seq<char>,
    i: int,
)
    requires
        0 <= i < t.transactions.len(),
    ensures
        ({
            let before = t.transactions[i];
            let after = categorize::rule_added(t, pattern, category).transactions[i];
            &&& after.id == before.id
            &&& after.description == before.description
            &&& after.category == if holds_pattern(before.description, pattern) {
                Some(category)
            } else {
                before.category
            }
        }),
{
    lemma_holds_pattern(t.transactions[i].description, pattern);
}

/// The rule that is added comes last where its pair is new, and says that it was
/// given by hand; where the pair was there, the rules that stay are all.
pub proof fn added_rule_comes_last(t: ledger::Tables, pattern: Seq<char>, category: Seq<char>)
    ensures
        ({
            let kept = t.rules.filter(
                |r: ledger::RuleModel| r.pattern != pattern || r.category == category,
            );
            let known = exists|i: int|
                0 <= i < t.rules.len() && (#[trigger] t.rules[i]).pattern == pattern
                    && t.rules[i].category == category;
            let after = categorize::rule_added(t, pattern, category).rules;
            &&& known ==> after == kept
            &&& !known ==> after == kept + seq![
                ledger::RuleModel { pattern, category, origin: "manual"@ },
            ]
        }),
{
    let p = |r: ledger::RuleModel| r.pattern != pattern || r.category == category;
    let q = |r: ledger::RuleModel| !(r.pattern == pattern && r.category != category);
    assert(p =~= q);
    let kept = t.rules.filter(p);
    assert(ledger::without_conflicts(t.rules, pattern, category) == kept);
    ledger::lemma_without_conflicts(t.rules, pattern, category);
    let rule = ledger::RuleModel { pattern, category, origin: "manual"@ };
    let known = exists|i: int|
        0 <= i < t.rules.len() && (#[trigger] t.rules[i]).pattern == pattern
            && t.rules[i].category == category;
    if known {
        let i = choose|i: int|
            0 <= i < t.rules.len() && (#[trigger] t.rules[i]).pattern == pattern
                && t.rules[i].category == category;
        assert(kept.contains(t.rules[i]));
        let k = choose|k: int| 0 <= k < kept.len() && kept[k] == t.rules[i];
        assert(ledger::maps(kept[k], pattern, category));
    } else {
        if ledger::has_rule(kept, pattern, category) {
            let k = choose|k: int|
                0 <= k < kept.len() && ledger::maps(#[trigger] kept[k], pattern, category);
            assert(t.rules.contains(kept[k]));
            let i = choose|i: int| 0 <= i < t.rules.len() && t.rules[i] == kept[k];
            assert(t.rules[i].pattern == pattern);
        }
        assert(kept.push(rule) =~= kept + seq![rule]);
    }
}

/// The counts of an added rule are those of the rows whose lowercased
/// description is some text, then the pattern, then some text: without a
/// category, on another, and on the category already.
pub proof fn added_rule_counts_go_by_the_description(
    rows: Seq<ledger::RowModel>,
    pattern: Seq<char>,
    category: Seq<char>,
)
    ensures
        categorize::newly_matched(rows, pattern) == rows.filter(
            |r: ledger::RowModel| holds_pattern(r.description, pattern) && r.category is None,
        ).len(),
        categorize::otherwise_matched(rows, pattern, category) == rows.filter(
            |r: ledger::RowModel|
                holds_pattern(r.description, pattern) && r.category is Some && r.category->0
                    != category,
        ).len(),
        categorize::rightly_matched(rows, pattern, category) == rows.filter(
            |r: ledger::RowModel|
                holds_pattern(r.description, pattern) && r.category is Some && r.category->0
                    == category,
        ).len(),
{
    let p1 = |r: ledger::RowModel| holds_pattern(r.description, pattern) && r.category is None;
    let q1 = |r: ledger::RowModel|
        categorize::pattern_matches(r.description, pattern) && r.category is None;
    let p2 = |r: ledger::RowModel|
        holds_pattern(r.description, pattern) && r.category is Some && r.category->0 != category;
    let q2 = |r: ledger::RowModel|
        categorize::pattern_matches(r.description, pattern) && r.category is Some && r.category
            != Some(category);
    let p3 = |r: ledger::RowModel|
        holds_pattern(r.description, pattern) && r.category is Some && r.category->0 == category;
    let q3 = |r: ledger::RowModel|
        categorize::pattern_matches(r.description, pattern) && r.category == Some(category);
    assert forall|r: ledger::RowModel|
        #[trigger] p1(r) == q1(r) && p2(r) == q2(r) && p3(r) == q3(r) by {
        lemma_holds_pattern(r.description, pattern);
    }
    assert forall|r: ledger::RowModel| #[trigger] p2(r) == q2(r) by {
        assert(p1(r) == q1(r));
    }
    assert forall|r: ledger::RowModel| #[trigger] p3(r) == q3(r) by {
        assert(p1(r) == q1(r));
    }
    assert(p1 =~= q1);
    assert(p2 =~= q2);
    assert(p3 =~= q3);
    rows_are_counted_one_by_one(rows, q1);
    rows_are_counted_one_by_one(rows, q2);
    rows_are_counted_one_by_one(rows, q3);
}

/// The transactions without a category are counted one by one.
pub proof fn uncategorized_rows_are_counted(rows: Seq<ledger::RowModel>)
    ensures
        ledger::uncategorized(rows) == rows.filter(
            |r: ledger::RowModel| r.category is None,
        ).len(),
{
    rows_are_counted_one_by_one(rows, |r: ledger::RowModel| r.category is None);
}

// --- Writes ----------------------------------------------------------------

/// Putting a transaction on a category changes the category of the rows with
/// that id, and nothing else.
pub proof fn category_write_sets_the_category(
    t: ledger::Tables,
    id: int,
    category: Seq<char>,
    i: int,
)
    requires
        0 <= i < t.transactions.len(),
    ensures
        ({
            let u = ledger::written(t, ledger::WriteModel::SetCategory { id, category });
            let (before, after) = (t.transactions[i], u.transactions[i]);
            &&& u.rules == t.rules
            &&& u.transactions.len() == t.transactions.len()
            &&& after.id == before.id
            &&& after.description == before.description
            &&& after.category == if before.id == id {
                Some(category)
            } else {
                before.category
            }
        }),
{
}

/// Inserting a rule puts it behind the others, unless some rule has both its
/// pattern and its category.
pub proof fn rule_write_appends_the_rule(t: ledger::Tables, rule: ledger::RuleModel)
    ensures
        ({
            let u = ledger::written(t, ledger::WriteModel::InsertRule { rule });
            let known = exists|i: int|
                0 <= i < t.rules.len() && (#[trigger] t.rules[i]).pattern == rule.pattern
                    && t.rules[i].category == rule.category;
            &&& u.transactions == t.transactions
            &&& known ==> u.rules == t.rules
            &&& !known ==> u.rules == t.rules + seq![rule]
        }),
{
    let known = exists|i: int|
        0 <= i < t.rules.len() && (#[trigger] t.rules[i]).pattern == rule.pattern
            && t.rules[i].category == rule.category;
    if known {
        let i = choose|i: int|
            0 <= i < t.rules.len() && (#[trigger] t.rules[i]).pattern == rule.pattern
                && t.rules[i].category == rule.category;
        assert(ledger::maps(t.rules[i], rule.pattern, rule.category));
    }
    assert(t.rules.push(rule) =~= t.rules + seq![rule]);
}

/// Deleting the other rules of a pattern keeps exactly the rules for other
/// patterns and those for the category, in their order.
pub proof fn delete_write_keeps_the_others(
    t: ledger::Tables,
    pattern: Seq<char>,
    category: Seq<char>,
)
    ensures
        ({
            let u = ledger::written(
                t,
                ledger::WriteModel::DeleteOtherRules { pattern, category },
            );
            &&& u.transactions == t.transactions
            &&& u.rules == t.rules.filter(
                |r: ledger::RuleModel| r.pattern != pattern || r.category == category,
            )
        }),
{
    let p = |r: ledger::RuleModel| r.pattern != pattern || r.category == category;
    let q = |r: ledger::RuleModel| !(r.pattern == pattern && r.category != category);
    assert(p =~= q);
}

/// Writes take effect one after another.
pub proof fn writes_take_effect_in_order(
    t: ledger::Tables,
    ws: Seq<ledger::WriteModel>,
    w: ledger::WriteModel,
)
    ensures
        ledger::replayed(t, Seq::empty()) == t,
        ledger::replayed(t, ws + seq![w]) == ledger::written(ledger::replayed(t, ws), w),
{
    assert((ws + seq![w]).drop_last() =~= ws);
}

// --- Categorizing by id ----------------------------------------------------

/// Categorizing by id sets the category of that transaction, whatever it was,
/// and of no other.
pub proof fn categorize_one_touches_one(
    t: ledger::Tables,
    id: int,
    category: Seq<char>,
    i: int,
)
    requires
        0 <= i < t.transactions.len(),
    ensures
        t.transactions[i].id == id ==> categorize::categorized_by_id(
            t,
            id,
            category,
        ).transactions[i].category == Some(category),
        t.transactions[i].id != id ==> categorize::categorized_by_id(
            t,
            id,
            category,
        ).transactions[i] == t.transactions[i],
        categorize::categorized_by_id(t, id, category).rules == t.rules,
{
}

// --- Imports ---------------------------------------------------------------

/// A fingerprint that is known stays known, whatever is inserted.
proof fn lemma_insert_keeps_known(
    s: db::StoreModel,
    t: model::TransactionModel,
    fingerprint: Seq<char>,
)
    ensures
        db::knows(s, fingerprint) ==> db::knows(db::inserted(s, t), fingerprint),
        db::knows(db::inserted(s, t), model::fingerprint(t)),
{
    let after = db::inserted(s, t);
    if !db::knows(s, model::fingerprint(t)) {
        assert(after.inserts.last().fingerprint == model::fingerprint(t));
        if db::knows(s, fingerprint) && !s.opened.contains(fingerprint) {
            let i = choose|i: int|
                0 <= i < s.inserts.len() && (#[trigger] s.inserts[i]).fingerprint == fingerprint;
            assert(after.inserts[i].fingerprint == fingerprint);
        }
    }
}

/// A transaction that was inserted is a duplicate the second time, and leaves
/// the table as it is.
pub proof fn insert_is_idempotent(s: db::StoreModel, t: model::TransactionModel)
    ensures
        db::inserted(db::inserted(s, t), t) == db::inserted(s, t),
{
    lemma_insert_keeps_known(s, t, model::fingerprint(t));
}

/// After an import the fingerprint of each of its rows is known, and so is
/// every one that was known before.
pub proof fn import_knows_every_row(
    s: db::StoreModel,
    source: Source,
    rows: Seq<csv_import::BankRowModel>,
)
    ensures
        forall|i: int|
            0 <= i < rows.len() ==> db::knows(
                csv_import::imported(s, source, rows),
                model::fingerprint(csv_import::row_transaction(source, #[trigger] rows[i])),
            ),
        forall|f: Seq<char>|
            db::knows(s, f) ==> #[trigger] db::knows(csv_import::imported(s, source, rows), f),
    decreases rows.len(),
{
    if rows.len() > 0 {
        let init = rows.drop_last();
        let before = csv_import::imported(s, source, init);
        let t = csv_import::row_transaction(source, rows.last());
        import_knows_every_row(s, source, init);
        assert forall|i: int| 0 <= i < rows.len() implies db::knows(
            csv_import::imported(s, source, rows),
            model::fingerprint(csv_import::row_transaction(source, #[trigger] rows[i])),
        ) by {
            let f = model::fingerprint(csv_import::row_transaction(source, rows[i]));
            lemma_insert_keeps_known(before, t, f);
            if i < init.len() {
                assert(init[i] == rows[i]);
            }
        }
        assert forall|f: Seq<char>| db::knows(s, f) implies #[trigger] db::knows(
            csv_import::imported(s, source, rows),
            f,
        ) by {
            lemma_insert_keeps_known(before, t, f);
        }
    }
}

/// Rows whose fingerprints are all known leave the table as it is.
pub proof fn import_skips_duplicates(
    s: db::StoreModel,
    source: Source,
    rows: Seq<csv_import::BankRowModel>,
)
    requires
        forall|i: int|
            0 <= i < rows.len() ==> db::knows(
                s,
                model::fingerprint(csv_import::row_transaction(source, #[trigger] rows[i])),
            ),
    ensures
        csv_import::imported(s, source, rows) == s,
    decreases rows.len(),
{
    if rows.len() > 0 {
        let init = rows.drop_last();
        assert forall|i: int| 0 <= i < init.len() implies db::knows(
            s,
            model::fingerprint(csv_import::row_transaction(source, #[trigger] init[i])),
        ) by {
            assert(init[i] == rows[i]);
        }
        import_skips_duplicates(s, source, init);
        assert(rows.last() == rows[rows.len() - 1]);
    }
}

/// Importing the same export a second time inserts nothing.
pub proof fn import_is_idempotent(
    s: db::StoreModel,
    source: Source,
    rows: Seq<csv_import::BankRowModel>,
)
    ensures
        csv_import::imported(csv_import::imported(s, source, rows), source, rows)
            == csv_import::imported(s, source, rows),
{
    import_knows_every_row(s, source, rows);
    import_skips_duplicates(csv_import::imported(s, source, rows), source, rows);
}

/// An import only adds rows: those of the table stay, and so do those that were
/// inserted before, in their order.
pub proof fn import_keeps_stored(
    s: db::StoreModel,
    source: Source,
    rows: Seq<csv_import::BankRowModel>,
)
    ensures
        csv_import::imported(s, source, rows).opened == s.opened,
        s.inserts.is_prefix_of(csv_import::imported(s, source, rows).inserts),
    decreases rows.len(),
{
    if rows.len() > 0 {
        import_keeps_stored(s, source, rows.drop_last());
    }
}

/// The fingerprints of the rows that the table does not know yet.
pub open spec fn new_fingerprints(
    s: db::StoreModel,
    source: Source,
    rows: Seq<csv_import::BankRowModel>,
) -> Set<Seq<char>> {
    rows.map_values(
        |r: csv_import::BankRowModel| model::fingerprint(csv_import::row_transaction(source, r)),
    ).to_set().filter(|f: Seq<char>| !db::knows(s, f))
}

/// What is known after an import was known before, or is the fingerprint of a
/// row.
pub proof fn lemma_known_after_import(
    s: db::StoreModel,
    source: Source,
    rows: Seq<csv_import::BankRowModel>,
    f: Seq<char>,
)
    requires
        db::knows(csv_import::imported(s, source, rows), f),
    ensures
        db::knows(s, f) || exists|i: int|
            0 <= i < rows.len() && f == model::fingerprint(
                csv_import::row_transaction(source, #[trigger] rows[i]),
            ),
    decreases rows.len(),
{
    if rows.len() > 0 {
        let init = rows.drop_last();
        let before = csv_import::imported(s, source, init);
        let after = csv_import::imported(s, source, rows);
        let last = model::fingerprint(csv_import::row_transaction(source, rows.last()));
        assert(rows.last() == rows[rows.len() - 1]);
        if f != last {
            if !before.opened.contains(f) {
                let i = choose|i: int|
                    0 <= i < after.inserts.len() && (#[trigger] after.inserts[i]).fingerprint == f;
                assert(i < before.inserts.len());
                assert(before.inserts[i].fingerprint == f);
            }
            lemma_known_after_import(s, source, init, f);
            if !db::knows(s, f) {
                let i = choose|i: int|
                    0 <= i < init.len() && f == model::fingerprint(
                        csv_import::row_transaction(source, #[trigger] init[i]),
                    );
                assert(init[i] == rows[i]);
            }
        }
    }
}

/// An import inserts as many rows as it has different fingerprints that the
/// table did not know.
pub proof fn import_counts_new_fingerprints(
    s: db::StoreModel,
    source: Source,
    rows: Seq<csv_import::BankRowModel>,
)
    ensures
        new_fingerprints(s, source, rows).finite(),
        csv_import::imported(s, source, rows).inserts.len() == s.inserts.len()
            + new_fingerprints(s, source, rows).len(),
    decreases rows.len(),
{
    let print = |r: csv_import::BankRowModel|
        model::fingerprint(csv_import::row_transaction(source, r));
    let fresh = new_fingerprints(s, source, rows);
    if rows.len() == 0 {
        assert(fresh =~= Set::<Seq<char>>::empty());
    } else {
        let init = rows.drop_last();
        let before = csv_import::imported(s, source, init);
        let f = print(rows.last());
        let earlier = new_fingerprints(s, source, init);
        import_counts_new_fingerprints(s, source, init);
        import_knows_every_row(s, source, init);
        let all = rows.map_values(print);
        let firsts = init.map_values(print);
        assert(all =~= firsts.push(f));
        assert forall|g: Seq<char>| #[trigger] all.contains(g) <==> firsts.contains(g) || g
            == f by {
            if firsts.contains(g) {
                let i = choose|i: int| 0 <= i < firsts.len() && firsts[i] == g;
                assert(all[i] == g);
            }
            if all.contains(g) && g != f {
                let i = choose|i: int| 0 <= i < all.len() && all[i] == g;
                assert(firsts[i] == g);
            }
            assert(all[all.len() - 1] == f);
        }
        if db::knows(before, f) {
            lemma_known_after_import(s, source, init, f);
            if !db::knows(s, f) {
                let i = choose|i: int|
                    0 <= i < init.len() && f == model::fingerprint(
                        csv_import::row_transaction(source, #[trigger] init[i]),
                    );
                assert(firsts[i] == f);
            }
            assert(fresh =~= earlier);
        } else {
            assert(!db::knows(s, f));
            if firsts.contains(f) {
                let i = choose|i: int| 0 <= i < firsts.len() && firsts[i] == f;
                assert(db::knows(
                    before,
                    model::fingerprint(csv_import::row_transaction(source, init[i])),
                ));
            }
            assert(fresh =~= earlier.insert(f));
        }
    }
}

/// An export that is imported in two parts gives what it gives as a whole.
pub proof fn import_in_parts(
    s: db::StoreModel,
    source: Source,
    first: Seq<csv_import::BankRowModel>,
    rest: Seq<csv_import::BankRowModel>,
)
    ensures
        csv_import::imported(s, source, first + rest) == csv_import::imported(
            csv_import::imported(s, source, first),
            source,
            rest,
        ),
    decreases rest.len(),
{
    if rest.len() == 0 {
        assert(first + rest =~= first);
    } else {
        assert((first + rest).drop_last() =~= first + rest.drop_last());
        import_in_parts(s, source, first, rest.drop_last());
    }
}

/// Negative is money out for both banks: Wells Fargo's sign is kept, and that
/// of Amex is flipped.
pub proof fn charges_are_negative(row: csv_import::BankRowModel)
    requires
        csv_import::readable(row),
    ensures
        csv_import::row_transaction(Source::WellsFargo, row).amount_cents < 0
            <==> csv_import::column_cents(row)->0 < 0,
        csv_import::row_transaction(Source::Amex, row).amount_cents < 0
            <==> csv_import::column_cents(row)->0 > 0,
{
}

// --- Keys ------------------------------------------------------------------

/// Tables are well keyed exactly where no two transactions share an id and no
/// two rules share both pattern and category.
pub proof fn keyed_tables_repeat_no_key(t: ledger::Tables)
    ensures
        ledger::keyed(t) <==> {
            &&& forall|i: int, j: int|
                0 <= i < t.transactions.len() && 0 <= j < t.transactions.len() && i != j
                    ==> (#[trigger] t.transactions[i]).id != (#[trigger] t.transactions[j]).id
            &&& forall|i: int, j: int|
                0 <= i < t.rules.len() && 0 <= j < t.rules.len() && i != j ==> (
                #[trigger] t.rules[i]).pattern != (#[trigger] t.rules[j]).pattern
                    || t.rules[i].category != t.rules[j].category
        },
{
    if ledger::keyed(t) {
        assert forall|i: int, j: int|
            0 <= i < t.transactions.len() && 0 <= j < t.transactions.len() && i != j implies (
        #[trigger] t.transactions[i]).id != (#[trigger] t.transactions[j]).id by {
            if j < i {
                assert(t.transactions[j].id != t.transactions[i].id);
            }
        }
        assert forall|i: int, j: int|
            0 <= i < t.rules.len() && 0 <= j < t.rules.len() && i != j implies (
        #[trigger] t.rules[i]).pattern != (#[trigger] t.rules[j]).pattern || t.rules[i].category
            != t.rules[j].category by {
            if i < j {
                assert(!ledger::maps(t.rules[i], t.rules[j].pattern, t.rules[j].category));
            } else {
                assert(!ledger::maps(t.rules[j], t.rules[i].pattern, t.rules[i].category));
            }
        }
    }
}

/// A transaction is there to be categorized by id exactly where some row has
/// the id; where none has, nothing changes.
pub proof fn categorize_one_needs_the_id(t: ledger::Tables, id: int, category: Seq<char>)
    ensures
        forall|i: int|
            0 <= i < t.transactions.len() && (#[trigger] t.transactions[i]).id == id
                ==> categorize::has_id(t.transactions, id),
        !categorize::has_id(t.transactions, id) ==> categorize::categorized_by_id(t, id, category)
            == t,
        categorize::has_id(t.transactions, id) ==> exists|i: int|
            0 <= i < t.transactions.len() && (#[trigger] t.transactions[i]).id == id,
{
    if !categorize::has_id(t.transactions, id) {
        assert(categorize::categorized_by_id(t, id, category).transactions =~= t.transactions);
    }
}

} // verus!
