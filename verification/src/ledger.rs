//! The stored transactions and merchant rules as categorization sees them, and
//! the journal of writes that brings the database to the same state.

use crate::text;
use vstd::prelude::*;

verus! {

// --- Model -----------------------------------------------------------------

/// A stored transaction, as far as categorization reads it.
pub struct RowModel {
    pub id: int,
    pub description: Seq<char>,
    pub category: Option<Seq<char>>,
}

/// A merchant rule: descriptions that hold the pattern get the category.
pub struct RuleModel {
    pub pattern: Seq<char>,
    pub category: Seq<char>,
    pub origin: Seq<char>,
}

/// The two tables.
#[verifier::ext_equal]
pub struct Tables {
    pub transactions: Seq<RowModel>,
    pub rules: Seq<RuleModel>,
}

/// One write to the database.
pub enum WriteModel {
    SetCategory { id: int, category: Seq<char> },
    InsertRule { rule: RuleModel },
    DeleteOtherRules { pattern: Seq<char>, category: Seq<char> },
}

/// The row on another category.
pub open spec fn recategorized(row: RowModel, category: Seq<char>) -> RowModel {
    RowModel { category: Some(category), ..row }
}

/// No two rows share an id.
pub open spec fn distinct_ids(rows: Seq<RowModel>) -> bool {
    forall|i: int, j: int| 0 <= i < j < rows.len() ==> (#[trigger] rows[i]).id != (#[trigger] rows[j]).id
}

/// The rule maps the pattern to the category.
pub open spec fn maps(rule: RuleModel, pattern: Seq<char>, category: Seq<char>) -> bool {
    rule.pattern == pattern && rule.category == category
}

/// Some rule maps the pattern to the category.
pub open spec fn has_rule(rules: Seq<RuleModel>, pattern: Seq<char>, category: Seq<char>) -> bool {
    exists|i: int| 0 <= i < rules.len() && maps(#[trigger] rules[i], pattern, category)
}

/// No two rules map the same pattern to the same category.
pub open spec fn distinct_rules(rules: Seq<RuleModel>) -> bool {
    forall|i: int, j: int|
        0 <= i < j < rules.len() ==> !maps(
            #[trigger] rules[i],
            (#[trigger] rules[j]).pattern,
            rules[j].category,
        )
}

/// The tables keep their keys: the ids, and the pairs of pattern and category.
pub open spec fn keyed(t: Tables) -> bool {
    distinct_ids(t.transactions) && distinct_rules(t.rules)
}

/// The rules without those that map the pattern to another category.
pub open spec fn without_conflicts(
    rules: Seq<RuleModel>,
    pattern: Seq<char>,
    category: Seq<char>,
) -> Seq<RuleModel> {
    rules.filter(|r: RuleModel| !(r.pattern == pattern && r.category != category))
}

/// The rules with one more at the end, unless its pair is there already.
pub open spec fn with_rule(rules: Seq<RuleModel>, rule: RuleModel) -> Seq<RuleModel> {
    if has_rule(rules, rule.pattern, rule.category) {
        rules
    } else {
        rules.push(rule)
    }
}

/// What one write makes of the tables.
pub open spec fn written(t: Tables, w: WriteModel) -> Tables {
    match w {
        WriteModel::SetCategory { id, category } => Tables {
            transactions: t.transactions.map_values(
                |r: RowModel|
                    if r.id == id {
                        recategorized(r, category)
                    } else {
                        r
                    },
            ),
            ..t
        },
        WriteModel::InsertRule { rule } => Tables { rules: with_rule(t.rules, rule), ..t },
        WriteModel::DeleteOtherRules { pattern, category } => Tables {
            rules: without_conflicts(t.rules, pattern, category),
            ..t
        },
    }
}

/// What a sequence of writes makes of the tables.
pub open spec fn replayed(t: Tables, ws: Seq<WriteModel>) -> Tables
    decreases ws.len(),
{
    if ws.len() == 0 {
        t
    } else {
        written(replayed(t, ws.drop_last()), ws.last())
    }
}

/// How many rows satisfy a condition.
pub open spec fn count_rows(rows: Seq<RowModel>, p: spec_fn(RowModel) -> bool) -> nat
    decreases rows.len(),
{
    if rows.len() == 0 {
        0
    } else {
        count_rows(rows.drop_last(), p) + (if p(rows.last()) {
            1nat
        } else {
            0nat
        })
    }
}

/// How many rows have no category.
pub open spec fn uncategorized(rows: Seq<RowModel>) -> nat {
    count_rows(rows, |r: RowModel| r.category is None)
}

// --- Rows, rules and writes ------------------------------------------------

/// A stored transaction, as far as categorization reads it.
#[derive(Debug)]
pub struct LedgerRow {
    pub id: i64,
    pub description: String,
    pub category: Option<String>,
}

impl View for LedgerRow {
    type V = RowModel;

    open spec fn view(&self) -> RowModel {
        RowModel {
            id: self.id as int,
            description: self.description@,
            category: text::optional_text(self.category),
        }
    }
}

/// A merchant rule. The pattern is a lowercase substring, and the origin says
/// whether it was learned from an export or given by hand.
#[derive(Debug)]
pub struct MerchantRule {
    pub pattern: String,
    pub category: String,
    pub origin: String,
}

impl View for MerchantRule {
    type V = RuleModel;

    open spec fn view(&self) -> RuleModel {
        RuleModel {
            pattern: self.pattern@,
            category: self.category@,
            origin: self.origin@,
        }
    }
}

/// One write to the database.
#[derive(Debug)]
pub enum Write {
    /// Put the transaction with this id on the category.
    SetCategory { id: i64, category: String },
    /// Add the rule.
    InsertRule { rule: MerchantRule },
    /// Delete the rules that map the pattern to another category.
    DeleteOtherRules { pattern: String, category: String },
}

impl View for Write {
    type V = WriteModel;

    open spec fn view(&self) -> WriteModel {
        match self {
            Write::SetCategory { id, category } => WriteModel::SetCategory {
                id: *id as int,
                category: category@,
            },
            Write::InsertRule { rule } => WriteModel::InsertRule { rule: rule@ },
            Write::DeleteOtherRules { pattern, category } => WriteModel::DeleteOtherRules {
                pattern: pattern@,
                category: category@,
            },
        }
    }
}

/// The models of a sequence of rows.
pub open spec fn row_models(rows: Seq<LedgerRow>) -> Seq<RowModel> {
    rows.map_values(|r: LedgerRow| r@)
}

/// The models of a sequence of rules.
pub open spec fn rule_models(rules: Seq<MerchantRule>) -> Seq<RuleModel> {
    rules.map_values(|r: MerchantRule| r@)
}

/// The models of a sequence of writes.
pub open spec fn write_models(ws: Seq<Write>) -> Seq<WriteModel> {
    ws.map_values(|w: Write| w@)
}

// --- The ledger ------------------------------------------------------------

/// The tables as they were read, with every change made to them since and the
/// journal of those changes.
pub struct Ledger {
    transactions: Vec<LedgerRow>,
    rules: Vec<MerchantRule>,
    journal: Vec<Write>,
    opened: Ghost<Tables>,
}

impl View for Ledger {
    type V = Tables;

    closed spec fn view(&self) -> Tables {
        Tables {
            transactions: row_models(self.transactions@),
            rules: rule_models(self.rules@),
        }
    }
}

impl Ledger {
    /// The tables as they were read.
    pub closed spec fn opened(&self) -> Tables {
        self.opened@
    }

    /// The writes since then.
    pub closed spec fn writes(&self) -> Seq<WriteModel> {
        write_models(self.journal@)
    }

    /// The keys hold, and the journal accounts for every change: the tables
    /// are what the journal makes of those that were read.
    pub open spec fn wf(&self) -> bool {
        &&& keyed(self@)
        &&& replayed(self.opened(), self.writes()) == self@
    }

    /// The ledger of tables as they were read, or `None` where two rows share
    /// an id or two rules share both pattern and category.
    pub fn load(transactions: Vec<LedgerRow>, rules: Vec<MerchantRule>) -> (r: Option<Ledger>)
        ensures
            r is Some <==> distinct_ids(row_models(transactions@)) && distinct_rules(
                rule_models(rules@),
            ),
            r matches Some(ledger) ==> {
                &&& ledger.wf()
                &&& ledger@.transactions == row_models(transactions@)
                &&& ledger@.rules == rule_models(rules@)
                &&& ledger.opened() == ledger@
                &&& ledger.writes() == Seq::<WriteModel>::empty()
            },
    {
        if !ids_are_distinct(&transactions) || !rules_are_distinct(&rules) {
            return None;
        }
        let ghost opened = Tables {
            transactions: row_models(transactions@),
            rules: rule_models(rules@),
        };
        let ledger = Ledger { transactions, rules, journal: Vec::new(), opened: Ghost(opened) };
        assert(ledger.writes() =~= Seq::<WriteModel>::empty());
        Some(ledger)
    }

    /// The stored transactions.
    pub fn transactions(&self) -> (r: &Vec<LedgerRow>)
        ensures
            row_models(r@) == self@.transactions,
    {
        &self.transactions
    }

    /// How many stored transactions there are.
    pub(crate) fn row_count(&self) -> (r: usize)
        ensures
            r == self@.transactions.len(),
    {
        self.transactions.len()
    }

    /// The stored transaction at a position.
    pub(crate) fn row(&self, i: usize) -> (r: &LedgerRow)
        requires
            i < self@.transactions.len(),
        ensures
            r@ == self@.transactions[i as int],
    {
        &self.transactions[i]
    }

    /// The merchant rules.
    pub fn rules(&self) -> (r: &Vec<MerchantRule>)
        ensures
            rule_models(r@) == self@.rules,
    {
        &self.rules
    }

    /// The writes that bring the database from the tables that were read to
    /// the present ones, in order.
    pub fn journal(&self) -> (r: &Vec<Write>)
        ensures
            write_models(r@) == self.writes(),
    {
        &self.journal
    }

    /// Puts the transaction at position `i` on the category.
    pub(crate) fn set_category(&mut self, i: usize, category: &String)
        requires
            old(self).wf(),
            i < old(self)@.transactions.len(),
        ensures
            final(self).wf(),
            final(self).opened() == old(self).opened(),
            final(self).writes() == old(self).writes().push(
                WriteModel::SetCategory {
                    id: old(self)@.transactions[i as int].id,
                    category: category@,
                },
            ),
            final(self)@.transactions == old(self)@.transactions.update(
                i as int,
                recategorized(old(self)@.transactions[i as int], category@),
            ),
            final(self)@.rules == old(self)@.rules,
    {
        let ghost before = self@.transactions;
        let row = LedgerRow {
            id: self.transactions[i].id,
            description: self.transactions[i].description.clone(),
            category: Some(category.clone()),
        };
        let id = row.id;
        let ghost w = WriteModel::SetCategory { id: id as int, category: category@ };
        self.transactions.set(i, row);
        self.journal.push(Write::SetCategory { id, category: category.clone() });
        proof {
            assert(self.writes() =~= old(self).writes().push(w));
            assert(self.writes().drop_last() =~= old(self).writes());
            let after = before.update(i as int, recategorized(before[i as int], category@));
            assert(self@.transactions =~= after);
            assert(written(old(self)@, w).transactions =~= after) by {
                assert forall|k: int| 0 <= k < before.len() && k != i implies before[k].id
                    != before[i as int].id by {
                    if k < i {
                        assert(before[k].id != before[i as int].id);
                    } else {
                        assert(before[i as int].id != before[k].id);
                    }
                }
            }
            assert(written(old(self)@, w) =~= self@);
            assert forall|a: int, b: int| 0 <= a < b < after.len() implies (#[trigger] after[a]).id
                != (#[trigger] after[b]).id by {
                assert(before[a].id != before[b].id);
            }
        }
    }

    /// Adds a rule, unless its pair of pattern and category is there already,
    /// and says whether it did.
    pub(crate) fn insert_rule(
        &mut self,
        pattern: &String,
        category: &String,
        origin: &str,
    ) -> (added: bool)
        requires
            old(self).wf(),
        ensures
            final(self).wf(),
            final(self).opened() == old(self).opened(),
            added == !has_rule(old(self)@.rules, pattern@, category@),
            ({
                let rule = RuleModel { pattern: pattern@, category: category@, origin: origin@ };
                &&& final(self)@.rules == with_rule(old(self)@.rules, rule)
                &&& final(self).writes() == (if added {
                    old(self).writes().push(WriteModel::InsertRule { rule })
                } else {
                    old(self).writes()
                })
            }),
            final(self)@.transactions == old(self)@.transactions,
    {
        assert(self@.rules.take(self.rules.len() as int) =~= self@.rules);
        if holds_rule(&self.rules, self.rules.len(), pattern, category) {
            return false;
        }
        let ghost rule = RuleModel { pattern: pattern@, category: category@, origin: origin@ };
        let ghost w = WriteModel::InsertRule { rule };
        self.rules.push(
            MerchantRule {
                pattern: pattern.clone(),
                category: category.clone(),
                origin: origin.to_owned(),
            },
        );
        self.journal.push(
            Write::InsertRule {
                rule: MerchantRule {
                    pattern: pattern.clone(),
                    category: category.clone(),
                    origin: origin.to_owned(),
                },
            },
        );
        proof {
            assert(self.writes() =~= old(self).writes().push(w));
            assert(self.writes().drop_last() =~= old(self).writes());
            assert(self@.rules =~= old(self)@.rules.push(rule));
            assert(self@.transactions == old(self)@.transactions);
            assert(written(old(self)@, w) =~= self@);
            lemma_with_rule_keeps_distinct(old(self)@.rules, rule);
        }
        true
    }

    /// Deletes the rules that map the pattern to another category.
    pub(crate) fn delete_other_rules(&mut self, pattern: &String, category: &String)
        requires
            old(self).wf(),
        ensures
            final(self).wf(),
            final(self).opened() == old(self).opened(),
            final(self).writes() == old(self).writes().push(
                WriteModel::DeleteOtherRules { pattern: pattern@, category: category@ },
            ),
            final(self)@.rules == without_conflicts(old(self)@.rules, pattern@, category@),
            final(self)@.transactions == old(self)@.transactions,
    {
        let ghost before = self@.rules;
        let ghost keep = |r: RuleModel| !(r.pattern == pattern@ && r.category != category@);
        let ghost w = WriteModel::DeleteOtherRules { pattern: pattern@, category: category@ };
        let ghost mut seen: int = 0;
        let mut i: usize = 0;
        assert(before.take(0).filter(keep) =~= Seq::<RuleModel>::empty()) by {
            reveal(Seq::filter);
        }
        assert(before.skip(0) =~= before);
        while i < self.rules.len()
            invariant
                i <= self.rules.len(),
                0 <= seen <= before.len(),
                self.rules.len() - i == before.len() - seen,
                before.take(seen).filter(keep).len() == i,
                rule_models(self.rules@) == before.take(seen).filter(keep) + before.skip(seen),
                keep == |r: RuleModel| !(r.pattern == pattern@ && r.category != category@),
                row_models(self.transactions@) == old(self)@.transactions,
                self.journal@ == old(self).journal@,
                self.opened@ == old(self).opened(),
                before == old(self)@.rules,
            decreases self.rules.len() - i,
        {
            let ghost models = rule_models(self.rules@);
            let ghost kept = before.take(seen).filter(keep);
            assert(models[i as int] == before[seen]);
            assert(before.take(seen + 1).drop_last() =~= before.take(seen));
            assert(before.take(seen + 1).filter(keep) == (if keep(before[seen]) {
                kept.push(before[seen])
            } else {
                kept
            })) by {
                reveal(Seq::filter);
            }
            if self.rules[i].pattern == *pattern && !(self.rules[i].category == *category) {
                let _ = self.rules.remove(i);
                assert(rule_models(self.rules@) =~= models.remove(i as int));
                assert(before.skip(seen).drop_first() =~= before.skip(seen + 1));
                assert(rule_models(self.rules@) =~= kept + before.skip(seen + 1));
            } else {
                assert(models =~= kept.push(before[seen]) + before.skip(seen + 1));
                i += 1;
            }
            proof {
                seen = seen + 1;
            }
        }
        self.journal.push(
            Write::DeleteOtherRules { pattern: pattern.clone(), category: category.clone() },
        );
        proof {
            assert(before.take(before.len() as int) =~= before);
            assert(self@.rules =~= without_conflicts(before, pattern@, category@));
            assert(self.writes() =~= old(self).writes().push(w));
            assert(self.writes().drop_last() =~= old(self).writes());
            assert(self@.transactions == old(self)@.transactions);
            assert(written(old(self)@, w) =~= self@);
            lemma_without_conflicts(before, pattern@, category@);
        }
    }
}

proof fn lemma_with_rule_keeps_distinct(rules: Seq<RuleModel>, rule: RuleModel)
    requires
        distinct_rules(rules),
    ensures
        distinct_rules(with_rule(rules, rule)),
{
    let after = with_rule(rules, rule);
    assert forall|a: int, b: int| 0 <= a < b < after.len() implies !maps(
        #[trigger] after[a],
        (#[trigger] after[b]).pattern,
        after[b].category,
    ) by {
        assert(after[a] == rules[a]);
        if b < rules.len() {
            assert(!maps(rules[a], rules[b].pattern, rules[b].category));
        }
    }
}

/// Filtering keeps the order and drops nothing that is to stay.
pub proof fn lemma_without_conflicts(
    rules: Seq<RuleModel>,
    pattern: Seq<char>,
    category: Seq<char>,
)
    ensures
        forall|i: int|
            0 <= i < without_conflicts(rules, pattern, category).len() ==> {
                let r = #[trigger] without_conflicts(rules, pattern, category)[i];
                rules.contains(r) && !(r.pattern == pattern && r.category != category)
            },
        forall|i: int|
            0 <= i < rules.len() && !(rules[i].pattern == pattern && rules[i].category != category)
                ==> without_conflicts(rules, pattern, category).contains(#[trigger] rules[i]),
        distinct_rules(rules) ==> distinct_rules(without_conflicts(rules, pattern, category)),
    decreases rules.len(),
{
    reveal(Seq::filter);
    let after = without_conflicts(rules, pattern, category);
    if rules.len() > 0 {
        let init = rules.drop_last();
        let rest = without_conflicts(init, pattern, category);
        lemma_without_conflicts(init, pattern, category);
        let x = rules.last();
        let kept = !(x.pattern == pattern && x.category != category);
        assert(after == (if kept {
            rest.push(x)
        } else {
            rest
        }));
        assert forall|i: int| 0 <= i < after.len() implies ({
            let r = #[trigger] after[i];
            rules.contains(r) && !(r.pattern == pattern && r.category != category)
        }) by {
            if i < rest.len() {
                assert(after[i] == rest[i]);
                let k = choose|k: int| 0 <= k < init.len() && init[k] == rest[i];
                assert(rules[k] == rest[i]);
            } else {
                assert(rules[rules.len() - 1] == x);
            }
        }
        assert forall|i: int|
            0 <= i < rules.len() && !(rules[i].pattern == pattern && rules[i].category
                != category) implies after.contains(#[trigger] rules[i]) by {
            if i < init.len() {
                assert(init[i] == rules[i]);
                assert(rest.contains(init[i]));
                let k = choose|k: int| 0 <= k < rest.len() && rest[k] == init[i];
                assert(after[k] == rules[i]);
            } else {
                assert(after[rest.len() as int] == x);
            }
        }
        if distinct_rules(rules) {
            assert(distinct_rules(init)) by {
                assert forall|a: int, b: int| 0 <= a < b < init.len() implies !maps(
                    #[trigger] init[a],
                    (#[trigger] init[b]).pattern,
                    init[b].category,
                ) by {
                    assert(!maps(rules[a], rules[b].pattern, rules[b].category));
                }
            }
            assert forall|a: int, b: int| 0 <= a < b < after.len() implies !maps(
                #[trigger] after[a],
                (#[trigger] after[b]).pattern,
                after[b].category,
            ) by {
                if b < rest.len() {
                    assert(!maps(rest[a], rest[b].pattern, rest[b].category));
                } else {
                    assert(init.contains(rest[a]));
                    let k = choose|k: int| 0 <= k < init.len() && init[k] == rest[a];
                    assert(!maps(rules[k], rules[rules.len() - 1].pattern, rules[rules.len() - 1].category));
                }
            }
        }
    }
}

fn ids_are_distinct(rows: &Vec<LedgerRow>) -> (r: bool)
    ensures
        r == distinct_ids(row_models(rows@)),
{
    broadcast use vstd::std_specs::hash::group_hash_axioms;

    let mut seen: std::collections::HashSet<i64> = std::collections::HashSet::new();
    let ghost models = row_models(rows@);
    let mut i: usize = 0;
    while i < rows.len()
        invariant
            i <= rows.len(),
            models == row_models(rows@),
            distinct_ids(models.take(i as int)),
            forall|k: int| 0 <= k < i ==> seen@.contains((#[trigger] rows@[k]).id),
            forall|id: i64| #[trigger]
                seen@.contains(id) ==> exists|k: int| 0 <= k < i && (#[trigger] rows@[k]).id == id,
        decreases rows.len() - i,
    {
        let id = rows[i].id;
        if seen.contains(&id) {
            proof {
                let k = choose|k: int| 0 <= k < i && (#[trigger] rows@[k]).id == id;
                assert(models[k].id == models[i as int].id);
            }
            return false;
        }
        seen.insert(id);
        assert forall|a: int, b: int| 0 <= a < b < i + 1 implies (#[trigger] models.take(i + 1)[a]).id
            != (#[trigger] models.take(i + 1)[b]).id by {
            if b < i {
                assert(models.take(i as int)[a].id != models.take(i as int)[b].id);
            } else {
                assert(seen@.contains(rows@[a].id));
                assert(models[a].id == rows@[a].id as int);
            }
        }
        i += 1;
    }
    assert(models.take(models.len() as int) =~= models);
    true
}

/// Whether some rule maps the pattern to the category.
fn holds_rule(rules: &Vec<MerchantRule>, upto: usize, pattern: &String, category: &String) -> (r: bool)
    requires
        upto <= rules.len(),
    ensures
        r == has_rule(rule_models(rules@).take(upto as int), pattern@, category@),
{
    let ghost models = rule_models(rules@).take(upto as int);
    let mut i: usize = 0;
    while i < upto
        invariant
            i <= upto <= rules.len(),
            models == rule_models(rules@).take(upto as int),
            forall|k: int| 0 <= k < i ==> !maps(#[trigger] models[k], pattern@, category@),
        decreases upto - i,
    {
        if rules[i].pattern == *pattern && rules[i].category == *category {
            assert(maps(models[i as int], pattern@, category@));
            return true;
        }
        i += 1;
    }
    false
}

fn rules_are_distinct(rules: &Vec<MerchantRule>) -> (r: bool)
    ensures
        r == distinct_rules(rule_models(rules@)),
{
    let ghost models = rule_models(rules@);
    let mut i: usize = 0;
    while i < rules.len()
        invariant
            i <= rules.len(),
            models == rule_models(rules@),
            distinct_rules(models.take(i as int)),
        decreases rules.len() - i,
    {
        if holds_rule(rules, i, &rules[i].pattern, &rules[i].category) {
            proof {
                let before = models.take(i as int);
                let k = choose|k: int|
                    0 <= k < before.len() && maps(
                        #[trigger] before[k],
                        models[i as int].pattern,
                        models[i as int].category,
                    );
                assert(before[k] == models[k]);
                assert(maps(models[k], models[i as int].pattern, models[i as int].category));
            }
            return false;
        }
        assert forall|a: int, b: int| 0 <= a < b < i + 1 implies !maps(
            #[trigger] models.take(i + 1)[a],
            (#[trigger] models.take(i + 1)[b]).pattern,
            models.take(i + 1)[b].category,
        ) by {
            if b < i {
                assert(!maps(
                    models.take(i as int)[a],
                    models.take(i as int)[b].pattern,
                    models.take(i as int)[b].category,
                ));
            } else {
                assert(models.take(i as int)[a] == models[a]);
            }
        }
        i += 1;
    }
    assert(models.take(models.len() as int) =~= models);
    true
}

} // verus!
