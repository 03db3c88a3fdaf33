//! Categorization: seed rules from a Monarch export, and apply rules to the
//! transactions of the ledger.

use crate::ledger;
use crate::ledger::{Ledger, MerchantRule};
use crate::text;
use vstd::prelude::*;

verus! {

// --- Reports and errors ----------------------------------------------------

/// What a seed run did.
#[derive(Debug, Clone, Copy, PartialEq, Eq)]
pub struct SeedReport {
    /// Transactions categorized by an exact match of the statement.
    pub direct_matches: usize,
    /// New pairs of pattern and category that were added as rules.
    pub rules_learned: usize,
    /// Rows of the export.
    pub monarch_rows: usize,
}

/// What a run of the rules over the uncategorized transactions did.
#[derive(Debug, Clone, Copy, PartialEq, Eq)]
pub struct ApplyReport {
    pub categorized: usize,
    pub still_uncategorized: usize,
}

/// What adding a rule did, with the matching transactions told apart by how
/// they were affected.
#[derive(Debug, Clone, Copy, PartialEq, Eq)]
pub struct AddRuleReport {
    pub rule_was_new: bool,
    /// Matching rows that had no category.
    pub newly_categorized: usize,
    /// Matching rows that had another category.
    pub reclassified: usize,
    /// Matching rows that were on the target category already.
    pub already_correct: usize,
}

/// Why a request to categorize was refused.
#[derive(Debug, Clone, Copy, PartialEq, Eq)]
pub enum CategorizeError {
    EmptyRule,
    EmptyCategory,
}

/// The message of an error.
pub open spec fn error_text(e: CategorizeError) -> Seq<char> {
    match e {
        CategorizeError::EmptyRule => "pattern and category must both be non-empty"@,
        CategorizeError::EmptyCategory => "category must be non-empty"@,
    }
}

impl CategorizeError {
    /// The message that is shown.
    pub fn message(self) -> (r: &'static str)
        ensures
            r@ == error_text(self),
    {
        match self {
            CategorizeError::EmptyRule => "pattern and category must both be non-empty",
            CategorizeError::EmptyCategory => "category must be non-empty",
        }
    }
}

// --- Text normalization ----------------------------------------------------

/// A text with every run of white space made one space and none at its ends.
pub open spec fn collapsed(s: Seq<char>) -> Seq<char> {
    text::joined(text::words(s))
}

/// The form in which descriptions are compared: collapsed and in lowercase.
pub open spec fn normalized(s: Seq<char>) -> Seq<char> {
    text::lowercase(collapsed(s))
}

/// Makes every run of white space one space, with none at the ends.
pub fn collapse(s: &str) -> (r: String)
    ensures
        r@ == collapsed(s@),
{
    text::join(&text::split_words(s))
}

/// Lowercases the text and makes every run of white space one space, with none
/// at the ends.
pub fn normalize(s: &str) -> (r: String)
    ensures
        r@ == normalized(s@),
        r@.len() == 0 <==> text::all_white(s@),
{
    proof {
        let ws = text::words(s@);
        text::lemma_words(s@);
        assert forall|k: int| 0 <= k < ws.len() implies (#[trigger] ws[k]).len() > 0 by {
            assert(text::is_word(ws[k]));
        }
        text::lemma_joined_length(ws);
    }
    let line = collapse(s);
    text::to_lowercase(line.as_str())
}

// --- The seed pass ---------------------------------------------------------

/// The columns of a Monarch export that are read.
#[derive(Debug)]
pub struct MonarchRow {
    pub merchant: String,
    pub category: String,
    pub original_statement: String,
}

/// A row of a Monarch export.
pub struct MonarchModel {
    pub merchant: Seq<char>,
    pub category: Seq<char>,
    pub original_statement: Seq<char>,
}

impl View for MonarchRow {
    type V = MonarchModel;

    open spec fn view(&self) -> MonarchModel {
        MonarchModel {
            merchant: self.merchant@,
            category: self.category@,
            original_statement: self.original_statement@,
        }
    }
}

/// The models of a sequence of rows of an export.
pub open spec fn monarch_models(rows: Seq<MonarchRow>) -> Seq<MonarchModel> {
    rows.map_values(|r: MonarchRow| r@)
}

/// What one row of an export makes of a stored transaction: one without a
/// category, whose description is the row's statement after normalization,
/// gets the row's category.
pub open spec fn seeded_row(m: MonarchModel, row: ledger::RowModel) -> ledger::RowModel {
    if row.category is None && normalized(row.description) == normalized(m.original_statement) {
        ledger::recategorized(row, text::trimmed(m.category))
    } else {
        row
    }
}

/// The rule that a row of an export teaches.
pub open spec fn taught_rule(m: MonarchModel) -> ledger::RuleModel {
    ledger::RuleModel {
        pattern: normalized(m.merchant),
        category: text::trimmed(m.category),
        origin: "monarch_seed"@,
    }
}

/// What one row of an export makes of the tables. A row without a category
/// changes nothing, and one without a merchant teaches no rule.
pub open spec fn seeded_by(t: ledger::Tables, m: MonarchModel) -> ledger::Tables {
    if text::trimmed(m.category).len() == 0 {
        t
    } else {
        ledger::Tables {
            transactions: t.transactions.map_values(|r: ledger::RowModel| seeded_row(m, r)),
            rules: if normalized(m.merchant).len() == 0 {
                t.rules
            } else {
                ledger::with_rule(t.rules, taught_rule(m))
            },
        }
    }
}

/// What an export makes of the tables, row by row.
pub open spec fn seeded(t: ledger::Tables, ms: Seq<MonarchModel>) -> ledger::Tables
    decreases ms.len(),
{
    if ms.len() == 0 {
        t
    } else {
        seeded_by(seeded(t, ms.drop_last()), ms.last())
    }
}

/// The descriptions of the stored transactions, normalized.
fn normalized_descriptions(book: &Ledger) -> (r: Vec<String>)
    ensures
        r@.len() == book@.transactions.len(),
        forall|i: int|
            0 <= i < r@.len() ==> (#[trigger] r@[i])@ == normalized(
                book@.transactions[i].description,
            ),
{
    let mut out: Vec<String> = Vec::new();
    let mut i: usize = 0;
    while i < book.row_count()
        invariant
            i <= book@.transactions.len(),
            out@.len() == i,
            forall|j: int|
                0 <= j < i ==> (#[trigger] out@[j])@ == normalized(
                    book@.transactions[j].description,
                ),
        decreases book@.transactions.len() - i,
    {
        out.push(normalize(book.row(i).description.as_str()));
        i += 1;
    }
    out
}

/// Puts every uncategorized transaction whose normalized description is `key`
/// on the category, and says how many there were.
fn categorize_matches(
    book: &mut Ledger,
    descriptions: &Vec<String>,
    key: &String,
    category: &String,
) -> (changed: usize)
    requires
        old(book).wf(),
        descriptions@.len() == old(book)@.transactions.len(),
        forall|i: int|
            0 <= i < descriptions@.len() ==> (#[trigger] descriptions@[i])@ == normalized(
                old(book)@.transactions[i].description,
            ),
    ensures
        final(book).wf(),
        final(book).opened() == old(book).opened(),
        final(book)@.rules == old(book)@.rules,
        final(book)@.transactions == old(book)@.transactions.map_values(
            |r: ledger::RowModel|
                if r.category is None && normalized(r.description) == key@ {
                    ledger::recategorized(r, category@)
                } else {
                    r
                },
        ),
        changed + ledger::uncategorized(final(book)@.transactions) == ledger::uncategorized(
            old(book)@.transactions,
        ),
        final(book).writes().len() == old(book).writes().len() + changed,
{
    let ghost before = book@.transactions;
    let ghost none = |r: ledger::RowModel| r.category is None;
    let ghost target = before.map_values(
        |r: ledger::RowModel|
            if r.category is None && normalized(r.description) == key@ {
                ledger::recategorized(r, category@)
            } else {
                r
            },
    );
    let mut changed: usize = 0;
    let mut i: usize = 0;
    while i < descriptions.len()
        invariant
            i <= before.len(),
            before.len() == descriptions@.len(),
            target.len() == before.len(),
            book.wf(),
            book.opened() == old(book).opened(),
            book@.rules == old(book)@.rules,
            book@.transactions.len() == before.len(),
            forall|j: int| 0 <= j < before.len() ==> #[trigger] target[j] == (if before[j].category is None
                && normalized(before[j].description) == key@ {
                ledger::recategorized(before[j], category@)
            } else {
                before[j]
            }),
            forall|j: int| 0 <= j < i ==> #[trigger] book@.transactions[j] == target[j],
            forall|j: int| i <= j < before.len() ==> #[trigger] book@.transactions[j] == before[j],
            forall|j: int|
                0 <= j < descriptions@.len() ==> (#[trigger] descriptions@[j])@ == normalized(
                    before[j].description,
                ),
            changed <= i,
            none == |r: ledger::RowModel| r.category is None,
            changed + ledger::count_rows(book@.transactions.take(i as int), none)
                == ledger::count_rows(before.take(i as int), none),
            book.writes().len() == old(book).writes().len() + changed,
        decreases before.len() - i,
    {
        let ghost so_far = book@.transactions;
        assert(before.take(i + 1).drop_last() =~= before.take(i as int));
        assert(so_far[i as int] == before[i as int]);
        if descriptions[i] == *key && book.row(i).category.is_none() {
            book.set_category(i, category);
            changed += 1;
        }
        assert(book@.transactions.take(i + 1).drop_last() =~= so_far.take(i as int));
        assert(target[i as int] == book@.transactions[i as int]);
        i += 1;
    }
    assert(before.take(before.len() as int) =~= before);
    assert(book@.transactions.take(before.len() as int) =~= book@.transactions);
    assert(book@.transactions =~= target);
    changed
}

/// Seeds categories and rules from a Monarch export. Transactions whose
/// normalized description is a row's normalized statement get its category,
/// unless they have one, and each row teaches a rule from its merchant to its
/// category.
pub fn seed_from_monarch(book: &mut Ledger, rows: &Vec<MonarchRow>) -> (r: SeedReport)
    requires
        old(book).wf(),
    ensures
        final(book).wf(),
        final(book).opened() == old(book).opened(),
        final(book)@ == seeded(old(book)@, monarch_models(rows@)),
        r.monarch_rows == rows.len(),
        r.direct_matches + ledger::uncategorized(final(book)@.transactions)
            == ledger::uncategorized(old(book)@.transactions),
        r.rules_learned + old(book)@.rules.len() == final(book)@.rules.len(),
        final(book).writes().len() == old(book).writes().len() + r.direct_matches + r.rules_learned,
{
    let descriptions = normalized_descriptions(book);
    let ghost models = monarch_models(rows@);
    let ghost first = book@.transactions;
    let mut direct_matches: usize = 0;
    let mut rules_learned: usize = 0;
    let mut i: usize = 0;
    proof {
        lemma_uncategorized_bound(first);
    }
    while i < rows.len()
        invariant
            i <= rows.len(),
            models == monarch_models(rows@),
            book.wf(),
            book.opened() == old(book).opened(),
            first == old(book)@.transactions,
            book@ == seeded(old(book)@, models.take(i as int)),
            same_descriptions(book@.transactions, first),
            descriptions@.len() == first.len(),
            forall|j: int|
                0 <= j < descriptions@.len() ==> (#[trigger] descriptions@[j])@ == normalized(
                    first[j].description,
                ),
            ledger::uncategorized(first) <= first.len(),
            direct_matches + ledger::uncategorized(book@.transactions) == ledger::uncategorized(
                first,
            ),
            rules_learned <= i,
            rules_learned + old(book)@.rules.len() == book@.rules.len(),
            book.writes().len() == old(book).writes().len() + direct_matches + rules_learned,
        decreases rows.len() - i,
    {
        let ghost so_far = book@;
        let ghost m = models[i as int];
        assert(models.take(i + 1).drop_last() =~= models.take(i as int));
        assert(models.take(i + 1).last() == rows@[i as int]@);
        let category = text::trim(rows[i].category.as_str());
        if !category.as_str().is_empty() {
            let key = normalize(rows[i].original_statement.as_str());
            assert forall|j: int| 0 <= j < descriptions@.len() implies (
            #[trigger] descriptions@[j])@ == normalized(book@.transactions[j].description) by {
                assert(book@.transactions[j].description == first[j].description);
            }
            let changed = categorize_matches(book, &descriptions, &key, &category);
            assert(descriptions.len() == first.len());
            direct_matches += changed;
            assert(book@.transactions =~= so_far.transactions.map_values(
                |r: ledger::RowModel| seeded_row(m, r),
            ));
            let pattern = normalize(rows[i].merchant.as_str());
            if !pattern.as_str().is_empty() {
                if book.insert_rule(&pattern, &category, "monarch_seed") {
                    rules_learned += 1;
                }
            }
            assert(book@ =~= seeded_by(so_far, m));
            assert forall|j: int| 0 <= j < first.len() implies (#[trigger] book@.transactions[j]).description
                == first[j].description by {
                assert(so_far.transactions[j].description == first[j].description);
            }
        }
        i += 1;
    }
    assert(models.take(models.len() as int) =~= models);
    SeedReport { direct_matches, rules_learned, monarch_rows: rows.len() }
}

/// The rows stand for the same transactions, whatever their categories.
pub open spec fn same_descriptions(
    a: Seq<ledger::RowModel>,
    b: Seq<ledger::RowModel>,
) -> bool {
    &&& a.len() == b.len()
    &&& forall|j: int| 0 <= j < a.len() ==> (#[trigger] a[j]).description == b[j].description
}

proof fn lemma_uncategorized_bound(rows: Seq<ledger::RowModel>)
    ensures
        ledger::uncategorized(rows) <= rows.len(),
    decreases rows.len(),
{
    if rows.len() > 0 {
        lemma_uncategorized_bound(rows.drop_last());
    }
}

// --- The apply pass --------------------------------------------------------

/// Rule `k` is the one to go by for a lowercased description: its pattern
/// stands in it, and no pattern that does is longer. Longer is more specific.
/// Among patterns of equal length the last rule is taken. Length is counted in
/// bytes.
pub open spec fn is_best_rule(
    rules: Seq<ledger::RuleModel>,
    lowered: Seq<char>,
    k: int,
) -> bool {
    &&& 0 <= k < rules.len()
    &&& text::contains_text(lowered, rules[k].pattern)
    &&& forall|j: int|
        0 <= j < rules.len() && text::contains_text(lowered, (#[trigger] rules[j]).pattern) ==> {
            ||| text::byte_len(rules[j].pattern) < text::byte_len(rules[k].pattern)
            ||| text::byte_len(rules[j].pattern) == text::byte_len(rules[k].pattern) && j <= k
        }
}

/// The category that the rules give a lowercased description, if any.
pub open spec fn ruled_category(
    rules: Seq<ledger::RuleModel>,
    lowered: Seq<char>,
) -> Option<Seq<char>> {
    if exists|k: int| is_best_rule(rules, lowered, k) {
        Some(rules[choose|k: int| is_best_rule(rules, lowered, k)].category)
    } else {
        None
    }
}

/// The position of the rule to go by for a lowercased description, if any of
/// the rules' patterns stands in it.
pub fn best_rule(rules: &Vec<MerchantRule>, lowered: &str) -> (r: Option<usize>)
    ensures
        (match r {
            Some(k) => {
                &&& is_best_rule(ledger::rule_models(rules@), lowered@, k as int)
                &&& ruled_category(ledger::rule_models(rules@), lowered@) == Some(
                    rules@[k as int].category@,
                )
            },
            None => {
                &&& forall|j: int|
                    0 <= j < rules.len() ==> !text::contains_text(
                        lowered@,
                        (#[trigger] rules@[j]).pattern@,
                    )
                &&& ruled_category(ledger::rule_models(rules@), lowered@) is None
            },
        }),
{
    let ghost models = ledger::rule_models(rules@);
    let mut best: Option<usize> = None;
    let mut i: usize = 0;
    while i < rules.len()
        invariant
            i <= rules.len(),
            models == ledger::rule_models(rules@),
            match best {
                Some(k) => k < i && is_best_rule(models.take(i as int), lowered@, k as int),
                None => forall|j: int|
                    0 <= j < i ==> !text::contains_text(lowered@, (#[trigger] models[j]).pattern),
            },
        decreases rules.len() - i,
    {
        let ghost before = models.take(i as int);
        let ghost upto = models.take(i + 1);
        assert(forall|j: int| 0 <= j < i ==> #[trigger] upto[j] == before[j]);
        assert(forall|j: int| 0 <= j < i ==> #[trigger] upto[j] == models[j]);
        assert(upto[i as int] == models[i as int]);
        if text::contains(lowered, rules[i].pattern.as_str()) {
            let take = match best {
                Some(k) => text::utf8_len(rules[k].pattern.as_str()) <= text::utf8_len(
                    rules[i].pattern.as_str(),
                ),
                None => true,
            };
            if take {
                assert(is_best_rule(upto, lowered@, i as int)) by {
                    if let Some(k) = best {
                        assert(before[k as int] == models[k as int]);
                    }
                    assert forall|j: int|
                        0 <= j < upto.len() && text::contains_text(
                            lowered@,
                            (#[trigger] upto[j]).pattern,
                        ) implies ({
                        ||| text::byte_len(upto[j].pattern) < text::byte_len(upto[i as int].pattern)
                        ||| text::byte_len(upto[j].pattern) == text::byte_len(
                            upto[i as int].pattern,
                        ) && j <= i
                    }) by {
                        if j < i {
                            assert(upto[j] == before[j]);
                        }
                    }
                }
                best = Some(i);
            } else {
                proof {
                    let k = best->0 as int;
                    assert(upto[k] == before[k]);
                    assert(before[k] == models[k]);
                    assert(is_best_rule(upto, lowered@, k));
                }
            }
        } else {
            proof {
                if let Some(k) = best {
                    assert(upto[k as int] == before[k as int]);
                    assert(is_best_rule(upto, lowered@, k as int));
                }
            }
        }
        i += 1;
    }
    assert(models.take(models.len() as int) =~= models);
    proof {
        match best {
            Some(k) => {
                lemma_best_rule_unique(models, lowered@, k as int);
            },
            None => {
                assert forall|j: int| 0 <= j < rules.len() implies !text::contains_text(
                    lowered@,
                    (#[trigger] rules@[j]).pattern@,
                ) by {
                    assert(models[j].pattern == rules@[j].pattern@);
                }
            },
        }
    }
    best
}

/// There is at most one rule to go by.
proof fn lemma_best_rule_unique(rules: Seq<ledger::RuleModel>, lowered: Seq<char>, k: int)
    requires
        is_best_rule(rules, lowered, k),
    ensures
        ruled_category(rules, lowered) == Some(rules[k].category),
{
    let m = choose|m: int| is_best_rule(rules, lowered, m);
    assert(text::contains_text(lowered, rules[m].pattern));
}

/// What the rules make of a transaction: one without a category gets that of
/// the rule to go by, if there is one.
pub open spec fn ruled_row(
    rules: Seq<ledger::RuleModel>,
    row: ledger::RowModel,
) -> ledger::RowModel {
    match ruled_category(rules, text::lowercase(row.description)) {
        Some(category) if row.category is None => ledger::recategorized(row, category),
        _ => row,
    }
}

/// What the apply pass makes of the tables.
pub open spec fn rules_applied(t: ledger::Tables) -> ledger::Tables {
    ledger::Tables {
        transactions: t.transactions.map_values(|r: ledger::RowModel| ruled_row(t.rules, r)),
        ..t
    }
}

/// Applies the merchant rules to every uncategorized transaction. The longest
/// pattern that stands in the lowercased description wins.
pub fn apply_rules(book: &mut Ledger) -> (r: ApplyReport)
    requires
        old(book).wf(),
    ensures
        final(book).wf(),
        final(book).opened() == old(book).opened(),
        final(book)@ == rules_applied(old(book)@),
        final(book).writes().len() == old(book).writes().len() + r.categorized,
        r.categorized + r.still_uncategorized == ledger::uncategorized(old(book)@.transactions),
        r.still_uncategorized == ledger::uncategorized(final(book)@.transactions),
{
    let ghost before = book@.transactions;
    let ghost rules = book@.rules;
    let ghost none = |r: ledger::RowModel| r.category is None;
    let mut categorized: usize = 0;
    let mut still_uncategorized: usize = 0;
    let mut i: usize = 0;
    while i < book.row_count()
        invariant
            i <= before.len(),
            book.wf(),
            book.opened() == old(book).opened(),
            book@.rules == rules,
            book@.transactions.len() == before.len(),
            forall|j: int|
                0 <= j < i ==> #[trigger] book@.transactions[j] == ruled_row(rules, before[j]),
            forall|j: int| i <= j < before.len() ==> #[trigger] book@.transactions[j] == before[j],
            categorized + still_uncategorized <= i,
            none == |r: ledger::RowModel| r.category is None,
            still_uncategorized == ledger::count_rows(book@.transactions.take(i as int), none),
            categorized + still_uncategorized == ledger::count_rows(before.take(i as int), none),
            book.writes().len() == old(book).writes().len() + categorized,
        decreases before.len() - i,
    {
        let ghost so_far = book@.transactions;
        assert(before.take(i + 1).drop_last() =~= before.take(i as int));
        assert(so_far[i as int] == before[i as int]);
        let mut found: Option<String> = None;
        let open = book.row(i).category.is_none();
        if open {
            let lowered = text::to_lowercase(book.row(i).description.as_str());
            if let Some(k) = best_rule(book.rules(), lowered.as_str()) {
                found = Some(book.rules()[k].category.clone());
            }
            match found {
                Some(category) => {
                    book.set_category(i, &category);
                    categorized += 1;
                },
                None => {
                    still_uncategorized += 1;
                },
            }
        }
        assert(book@.transactions.take(i + 1).drop_last() =~= so_far.take(i as int));
        assert(book@.transactions.take(i + 1).last() == ruled_row(rules, before[i as int]));
        i += 1;
    }
    assert(before.take(before.len() as int) =~= before);
    assert(book@.transactions.take(before.len() as int) =~= book@.transactions);
    assert(book@ =~= rules_applied(old(book)@));
    ApplyReport { categorized, still_uncategorized }
}

// --- Rules and categories given by hand ------------------------------------

/// A description matches a pattern: in lowercase, it holds it.
pub open spec fn pattern_matches(description: Seq<char>, pattern: Seq<char>) -> bool {
    text::contains_text(text::lowercase(description), pattern)
}

/// What adding a rule makes of the tables: conflicting rules go, the rule is
/// there, and every matching transaction is on its category.
pub open spec fn rule_added(
    t: ledger::Tables,
    pattern: Seq<char>,
    category: Seq<char>,
) -> ledger::Tables {
    ledger::Tables {
        transactions: t.transactions.map_values(
            |r: ledger::RowModel|
                if pattern_matches(r.description, pattern) {
                    ledger::recategorized(r, category)
                } else {
                    r
                },
        ),
        rules: ledger::with_rule(
            ledger::without_conflicts(t.rules, pattern, category),
            ledger::RuleModel { pattern, category, origin: "manual"@ },
        ),
    }
}

/// How many rows match the pattern and have no category.
pub open spec fn newly_matched(rows: Seq<ledger::RowModel>, pattern: Seq<char>) -> nat {
    ledger::count_rows(
        rows,
        |r: ledger::RowModel| pattern_matches(r.description, pattern) && r.category is None,
    )
}

/// How many rows match the pattern and have another category.
pub open spec fn otherwise_matched(
    rows: Seq<ledger::RowModel>,
    pattern: Seq<char>,
    category: Seq<char>,
) -> nat {
    ledger::count_rows(
        rows,
        |r: ledger::RowModel|
            pattern_matches(r.description, pattern) && r.category is Some && r.category != Some(
                category,
            ),
    )
}

/// How many rows match the pattern and have the category already.
pub open spec fn rightly_matched(
    rows: Seq<ledger::RowModel>,
    pattern: Seq<char>,
    category: Seq<char>,
) -> nat {
    ledger::count_rows(
        rows,
        |r: ledger::RowModel|
            pattern_matches(r.description, pattern) && r.category == Some(category),
    )
}

/// Adds a rule and applies it. Every matching transaction ends up on the
/// category, whatever it was on before.
pub fn add_rule(book: &mut Ledger, pattern: &str, category: &str) -> (r: Result<
    AddRuleReport,
    CategorizeError,
>)
    requires
        old(book).wf(),
    ensures
        final(book).wf(),
        final(book).opened() == old(book).opened(),
        ({
            let p = text::lowercase(text::trimmed(pattern@));
            let c = text::trimmed(category@);
            let rows = old(book)@.transactions;
            match r {
                Err(e) => {
                    &&& text::trimmed(pattern@).len() == 0 || c.len() == 0
                    &&& e == CategorizeError::EmptyRule
                    &&& final(book)@ == old(book)@
                    &&& final(book).writes() == old(book).writes()
                },
                Ok(report) => {
                    &&& text::trimmed(pattern@).len() > 0 && c.len() > 0
                    &&& p.len() > 0
                    &&& final(book)@ == rule_added(old(book)@, p, c)
                    &&& report.rule_was_new == !ledger::has_rule(old(book)@.rules, p, c)
                    &&& report.newly_categorized == newly_matched(rows, p)
                    &&& report.reclassified == otherwise_matched(rows, p, c)
                    &&& report.already_correct == rightly_matched(rows, p, c)
                    &&& final(book).writes().len() == old(book).writes().len() + 1 + (
                    if report.rule_was_new {
                        1int
                    } else {
                        0
                    }) + report.newly_categorized + report.reclassified
                },
            }
        }),
{
    let trimmed_pattern = text::trim(pattern);
    let pattern = text::to_lowercase(trimmed_pattern.as_str());
    let category = text::trim(category);
    if pattern.as_str().is_empty() || category.as_str().is_empty() {
        return Err(CategorizeError::EmptyRule);
    }
    book.delete_other_rules(&pattern, &category);
    proof {
        lemma_without_conflicts_keeps(old(book)@.rules, pattern@, category@);
    }
    let rule_was_new = book.insert_rule(&pattern, &category, "manual");

    let ghost before = old(book)@.transactions;
    let ghost rules = book@.rules;
    let ghost p_none = |r: ledger::RowModel|
        pattern_matches(r.description, pattern@) && r.category is None;
    let ghost p_other = |r: ledger::RowModel|
        pattern_matches(r.description, pattern@) && r.category is Some && r.category != Some(
            category@,
        );
    let ghost p_same = |r: ledger::RowModel|
        pattern_matches(r.description, pattern@) && r.category == Some(category@);
    let ghost wrote = book.writes().len();
    let mut newly_categorized: usize = 0;
    let mut reclassified: usize = 0;
    let mut already_correct: usize = 0;
    let mut i: usize = 0;
    while i < book.row_count()
        invariant
            i <= before.len(),
            book.wf(),
            book.opened() == old(book).opened(),
            book@.rules == rules,
            book@.transactions.len() == before.len(),
            forall|j: int|
                0 <= j < i ==> #[trigger] book@.transactions[j] == (if pattern_matches(
                    before[j].description,
                    pattern@,
                ) {
                    ledger::recategorized(before[j], category@)
                } else {
                    before[j]
                }),
            forall|j: int| i <= j < before.len() ==> #[trigger] book@.transactions[j] == before[j],
            newly_categorized + reclassified + already_correct <= i,
            p_none == |r: ledger::RowModel|
                pattern_matches(r.description, pattern@) && r.category is None,
            p_other == |r: ledger::RowModel|
                pattern_matches(r.description, pattern@) && r.category is Some && r.category
                    != Some(category@),
            p_same == |r: ledger::RowModel|
                pattern_matches(r.description, pattern@) && r.category == Some(category@),
            newly_categorized == ledger::count_rows(before.take(i as int), p_none),
            reclassified == ledger::count_rows(before.take(i as int), p_other),
            already_correct == ledger::count_rows(before.take(i as int), p_same),
            book.writes().len() == wrote + newly_categorized + reclassified,
        decreases before.len() - i,
    {
        assert(before.take(i + 1).drop_last() =~= before.take(i as int));
        assert(book@.transactions[i as int] == before[i as int]);
        let lowered = text::to_lowercase(book.row(i).description.as_str());
        if text::contains(lowered.as_str(), pattern.as_str()) {
            match &book.row(i).category {
                None => {
                    newly_categorized += 1;
                    book.set_category(i, &category);
                },
                Some(present) => {
                    if *present == category {
                        already_correct += 1;
                    } else {
                        reclassified += 1;
                        book.set_category(i, &category);
                    }
                },
            }
        }
        i += 1;
    }
    assert(before.take(before.len() as int) =~= before);
    assert(book@ =~= rule_added(old(book)@, pattern@, category@));
    Ok(AddRuleReport { rule_was_new, newly_categorized, reclassified, already_correct })
}

/// Deleting the conflicting rules leaves the rule itself, where it was there.
proof fn lemma_without_conflicts_keeps(
    rules: Seq<ledger::RuleModel>,
    pattern: Seq<char>,
    category: Seq<char>,
)
    ensures
        ledger::has_rule(ledger::without_conflicts(rules, pattern, category), pattern, category)
            == ledger::has_rule(rules, pattern, category),
{
    ledger::lemma_without_conflicts(rules, pattern, category);
    let after = ledger::without_conflicts(rules, pattern, category);
    if ledger::has_rule(rules, pattern, category) {
        let i = choose|i: int|
            0 <= i < rules.len() && ledger::maps(#[trigger] rules[i], pattern, category);
        assert(after.contains(rules[i]));
        let k = choose|k: int| 0 <= k < after.len() && after[k] == rules[i];
        assert(ledger::maps(after[k], pattern, category));
    }
    if ledger::has_rule(after, pattern, category) {
        let k = choose|k: int|
            0 <= k < after.len() && ledger::maps(#[trigger] after[k], pattern, category);
        assert(rules.contains(after[k]));
        let i = choose|i: int| 0 <= i < rules.len() && rules[i] == after[k];
        assert(ledger::maps(rules[i], pattern, category));
    }
}

/// What putting one transaction on a category makes of the tables.
pub open spec fn categorized_by_id(
    t: ledger::Tables,
    id: int,
    category: Seq<char>,
) -> ledger::Tables {
    ledger::written(t, ledger::WriteModel::SetCategory { id, category })
}

/// Some transaction has the id.
pub open spec fn has_id(rows: Seq<ledger::RowModel>, id: int) -> bool {
    exists|i: int| 0 <= i < rows.len() && (#[trigger] rows[i]).id == id
}

/// Puts the transaction with this id on the category, whatever it was on
/// before, and says whether there is one.
pub fn categorize_one(book: &mut Ledger, id: i64, category: &str) -> (r: Result<
    bool,
    CategorizeError,
>)
    requires
        old(book).wf(),
    ensures
        final(book).wf(),
        final(book).opened() == old(book).opened(),
        ({
            let c = text::trimmed(category@);
            match r {
                Err(e) => {
                    &&& c.len() == 0
                    &&& e == CategorizeError::EmptyCategory
                    &&& final(book)@ == old(book)@
                    &&& final(book).writes() == old(book).writes()
                },
                Ok(found) => {
                    &&& c.len() > 0
                    &&& found == has_id(old(book)@.transactions, id as int)
                    &&& final(book)@ == categorized_by_id(old(book)@, id as int, c)
                    &&& final(book).writes() == (if found {
                        old(book).writes().push(
                            ledger::WriteModel::SetCategory { id: id as int, category: c },
                        )
                    } else {
                        old(book).writes()
                    })
                },
            }
        }),
{
    let wanted = text::trim(category);
    if wanted.as_str().is_empty() {
        return Err(CategorizeError::EmptyCategory);
    }
    let ghost before = book@.transactions;
    let ghost target = categorized_by_id(book@, id as int, wanted@);
    let mut i: usize = 0;
    while i < book.row_count()
        invariant
            i <= before.len(),
            *book == *old(book),
            book.wf(),
            before == book@.transactions,
            wanted@ == text::trimmed(category@),
            wanted@.len() > 0,
            target == categorized_by_id(book@, id as int, wanted@),
            forall|j: int| 0 <= j < i ==> (#[trigger] before[j]).id != id,
        decreases before.len() - i,
    {
        if book.row(i).id == id {
            book.set_category(i, &wanted);
            assert(before[i as int].id == id);
            assert(book@.transactions =~= target.transactions) by {
                assert forall|j: int| i < j < before.len() implies (#[trigger] before[j]).id
                    != id by {
                    assert(before[i as int].id != before[j].id);
                }
            }
            assert(book@ =~= target);
            return Ok(true);
        }
        i += 1;
    }
    assert(book@.transactions =~= target.transactions);
    assert(book@ =~= target);
    Ok(false)
}

} // verus!
