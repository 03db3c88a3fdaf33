//! The stored rows: what the transaction table takes in, and the rows that are
//! read back for display.

use crate::date;
use crate::model;
use crate::model::Transaction;
use crate::text;
use vstd::prelude::*;

verus! {

// --- Rows read back --------------------------------------------------------

/// A stored transaction, as it is listed.
#[derive(Debug)]
pub struct TransactionRow {
    pub id: i64,
    pub txn_date: String,
    pub source: String,
    pub description: String,
    pub amount_cents: i64,
    pub category: Option<String>,
}

/// The transactions of one category taken together.
#[derive(Debug)]
pub struct CategorySummary {
    pub category: String,
    pub count: i64,
    pub total_cents: i64,
}

/// A stored transaction, as it is listed.
pub struct ListedModel {
    pub id: int,
    pub txn_date: Seq<char>,
    pub source: Seq<char>,
    pub description: Seq<char>,
    pub amount_cents: int,
    pub category: Option<Seq<char>>,
}

/// The transactions of one category taken together.
pub struct SummaryModel {
    pub category: Seq<char>,
    pub count: int,
    pub total_cents: int,
}

impl View for TransactionRow {
    type V = ListedModel;

    open spec fn view(&self) -> ListedModel {
        ListedModel {
            id: self.id as int,
            txn_date: self.txn_date@,
            source: self.source@,
            description: self.description@,
            amount_cents: self.amount_cents as int,
            category: text::optional_text(self.category),
        }
    }
}

impl View for CategorySummary {
    type V = SummaryModel;

    open spec fn view(&self) -> SummaryModel {
        SummaryModel {
            category: self.category@,
            count: self.count as int,
            total_cents: self.total_cents as int,
        }
    }
}

/// The models of a sequence of listed transactions.
pub open spec fn listed_models(rows: Seq<TransactionRow>) -> Seq<ListedModel> {
    rows.map_values(|r: TransactionRow| r@)
}

/// The models of a sequence of summaries.
pub open spec fn summary_models(rows: Seq<CategorySummary>) -> Seq<SummaryModel> {
    rows.map_values(|r: CategorySummary| r@)
}

// --- Rows put in -----------------------------------------------------------

/// A row for the transaction table, as it is inserted.
#[derive(Debug)]
pub struct NewTransaction {
    pub source: String,
    pub txn_date: String,
    pub description: String,
    pub amount_cents: i64,
    pub card_member: Option<String>,
    pub fingerprint: String,
}

/// A row for the transaction table.
pub struct InsertModel {
    pub source: Seq<char>,
    pub txn_date: Seq<char>,
    pub description: Seq<char>,
    pub amount_cents: int,
    pub card_member: Option<Seq<char>>,
    pub fingerprint: Seq<char>,
}

impl View for NewTransaction {
    type V = InsertModel;

    open spec fn view(&self) -> InsertModel {
        InsertModel {
            source: self.source@,
            txn_date: self.txn_date@,
            description: self.description@,
            amount_cents: self.amount_cents as int,
            card_member: text::optional_text(self.card_member),
            fingerprint: self.fingerprint@,
        }
    }
}

/// The row that is inserted for a transaction: the date is stored as
/// `YYYY-MM-DD`.
pub open spec fn insert_of(t: model::TransactionModel) -> InsertModel {
    InsertModel {
        source: model::source_text(t.source),
        txn_date: date::iso_text(t.txn_date.0, t.txn_date.1, t.txn_date.2),
        description: t.description,
        amount_cents: t.amount_cents,
        card_member: t.card_member,
        fingerprint: model::fingerprint(t),
    }
}

// --- The store -------------------------------------------------------------

/// The fingerprints of a table and the rows that are new to it.
#[verifier::ext_equal]
pub struct StoreModel {
    /// The fingerprints of the rows that the table held when it was read.
    pub opened: Seq<Seq<char>>,
    /// The rows that were inserted since, in order.
    pub inserts: Seq<InsertModel>,
}

/// Some row of the table has the fingerprint.
pub open spec fn knows(s: StoreModel, fingerprint: Seq<char>) -> bool {
    ||| s.opened.contains(fingerprint)
    ||| exists|i: int|
        0 <= i < s.inserts.len() && (#[trigger] s.inserts[i]).fingerprint == fingerprint
}

/// What inserting a transaction makes of the table: a fingerprint that is
/// there already makes it a duplicate, which is dropped.
pub open spec fn inserted(s: StoreModel, t: model::TransactionModel) -> StoreModel {
    if knows(s, model::fingerprint(t)) {
        s
    } else {
        StoreModel { inserts: s.inserts.push(insert_of(t)), ..s }
    }
}

/// The inserted rows have fingerprints of their own, that no row had before.
pub open spec fn inserts_are_new(s: StoreModel) -> bool {
    forall|i: int|
        0 <= i < s.inserts.len() ==> {
            &&& !s.opened.contains((#[trigger] s.inserts[i]).fingerprint)
            &&& forall|j: int|
                0 <= j < i ==> (#[trigger] s.inserts[j]).fingerprint != s.inserts[i].fingerprint
        }
}

/// The fingerprints of the transaction table, with the rows that are to be
/// inserted into it.
pub struct TransactionStore {
    opened: Vec<String>,
    inserts: Vec<NewTransaction>,
}

impl View for TransactionStore {
    type V = StoreModel;

    closed spec fn view(&self) -> StoreModel {
        StoreModel {
            opened: text::texts(self.opened@),
            inserts: self.inserts@.map_values(|r: NewTransaction| r@),
        }
    }
}

impl TransactionStore {
    /// No row is inserted twice.
    pub open spec fn wf(&self) -> bool {
        inserts_are_new(self@)
    }

    /// The store of a table whose rows have these fingerprints.
    pub fn load(fingerprints: Vec<String>) -> (r: TransactionStore)
        ensures
            r.wf(),
            r@.opened == text::texts(fingerprints@),
            r@.inserts == Seq::<InsertModel>::empty(),
    {
        let store = TransactionStore { opened: fingerprints, inserts: Vec::new() };
        assert(store@.inserts =~= Seq::<InsertModel>::empty());
        store
    }

    /// The rows to insert, in order.
    pub fn inserts(&self) -> (r: &Vec<NewTransaction>)
        ensures
            r@.map_values(|row: NewTransaction| row@) == self@.inserts,
    {
        &self.inserts
    }

    /// Whether some row of the table has the fingerprint.
    fn has_fingerprint(&self, fingerprint: &String) -> (r: bool)
        ensures
            r == knows(self@, fingerprint@),
    {
        let mut i: usize = 0;
        while i < self.opened.len()
            invariant
                i <= self.opened.len(),
                forall|j: int| 0 <= j < i ==> #[trigger] self@.opened[j] != fingerprint@,
            decreases self.opened.len() - i,
        {
            if self.opened[i] == *fingerprint {
                assert(self@.opened[i as int] == fingerprint@);
                return true;
            }
            i += 1;
        }
        let mut k: usize = 0;
        while k < self.inserts.len()
            invariant
                k <= self.inserts.len(),
                forall|j: int|
                    0 <= j < k ==> (#[trigger] self@.inserts[j]).fingerprint != fingerprint@,
                !self@.opened.contains(fingerprint@),
            decreases self.inserts.len() - k,
        {
            if self.inserts[k].fingerprint == *fingerprint {
                assert(self@.inserts[k as int].fingerprint == fingerprint@);
                return true;
            }
            k += 1;
        }
        false
    }
}

/// Copies an optional text.
fn copy_optional(s: &Option<String>) -> (r: Option<String>)
    ensures
        text::optional_text(r) == text::optional_text(*s),
{
    match s {
        Some(t) => Some(t.clone()),
        None => None,
    }
}

/// Inserts a transaction, and says whether it was new. A row with the same
/// fingerprint makes it a duplicate.
pub fn insert_transaction(store: &mut TransactionStore, txn: &Transaction) -> (new: bool)
    requires
        old(store).wf(),
    ensures
        final(store).wf(),
        new == !knows(old(store)@, model::fingerprint(txn@)),
        final(store)@ == inserted(old(store)@, txn@),
{
    let fingerprint = txn.fingerprint();
    if store.has_fingerprint(&fingerprint) {
        return false;
    }
    let ghost before = store@;
    let row = NewTransaction {
        source: txn.source.as_str().to_owned(),
        txn_date: txn.txn_date.to_iso(),
        description: txn.description.clone(),
        amount_cents: txn.amount_cents,
        card_member: copy_optional(&txn.card_member),
        fingerprint,
    };
    store.inserts.push(row);
    proof {
        assert(store@.inserts =~= before.inserts.push(insert_of(txn@)));
        assert(store@ =~= inserted(before, txn@));
        assert forall|i: int| 0 <= i < store@.inserts.len() implies ({
            &&& !store@.opened.contains((#[trigger] store@.inserts[i]).fingerprint)
            &&& forall|j: int|
                0 <= j < i ==> (#[trigger] store@.inserts[j]).fingerprint
                    != store@.inserts[i].fingerprint
        }) by {
            if i < before.inserts.len() {
                assert(store@.inserts[i] == before.inserts[i]);
            }
            assert forall|j: int| 0 <= j < i implies (#[trigger] store@.inserts[j]).fingerprint
                != store@.inserts[i].fingerprint by {
                assert(store@.inserts[j] == before.inserts[j]);
            }
        }
    }
    true
}

} // verus!
