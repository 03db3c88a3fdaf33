//! The state of the terminal interface: what is listed and selected, what the
//! user is typing, and what each key does.

use crate::categorize;
use crate::categorize::CategorizeError;
use crate::db;
use crate::db::{CategorySummary, TransactionRow};
use crate::ledger;
use crate::ledger::Ledger;
use crate::numeral;
use crate::text;
use vstd::prelude::*;

verus! {

// --- Keys, screens and modes -----------------------------------------------

/// A key press.
#[derive(Debug, Clone, Copy, PartialEq, Eq, Structural)]
pub enum Key {
    Char(char),
    Esc,
    Enter,
    Tab,
    BackTab,
    Backspace,
    Up,
    Down,
    PageUp,
    PageDown,
    Home,
    End,
    Other,
}

/// Which table is on screen.
#[derive(Debug, Clone, Copy, PartialEq, Eq, Structural)]
pub enum Screen {
    Transactions,
    Categories,
}

/// Which part of the category modal takes the keys.
#[derive(Debug, Clone, Copy, PartialEq, Eq, Structural)]
pub enum ModalFocus {
    Category,
    Toggle,
    Pattern,
}

/// The window in which a transaction is categorized.
#[derive(Debug)]
pub struct CategoryModal {
    pub target_txn_id: i64,
    pub category_input: String,
    pub apply_to_all: bool,
    pub pattern_input: String,
    pub focus: ModalFocus,
    /// Why the last attempt to apply failed. The window stays open, with what
    /// was typed.
    pub error: Option<String>,
}

/// Where the user is typing.
#[derive(Debug)]
pub enum InputMode {
    Normal,
    /// Typing the filter; `prior` is the filter that was active before.
    Filter { prior: String },
    Category(CategoryModal),
}

/// What the user asks to have written.
#[derive(Debug)]
pub enum Submission {
    AddRule { pattern: String, category: String },
    CategorizeOne { id: i64, category: String },
}

/// The window in which a transaction is categorized.
pub struct ModalModel {
    pub target_txn_id: int,
    pub category_input: Seq<char>,
    pub apply_to_all: bool,
    pub pattern_input: Seq<char>,
    pub focus: ModalFocus,
    pub error: Option<Seq<char>>,
}

/// Where the user is typing.
pub enum ModeModel {
    Normal,
    Filter { prior: Seq<char> },
    Category(ModalModel),
}

/// What the user asks to have written.
pub enum SubmissionModel {
    AddRule { pattern: Seq<char>, category: Seq<char> },
    CategorizeOne { id: int, category: Seq<char> },
}

impl View for CategoryModal {
    type V = ModalModel;

    open spec fn view(&self) -> ModalModel {
        ModalModel {
            target_txn_id: self.target_txn_id as int,
            category_input: self.category_input@,
            apply_to_all: self.apply_to_all,
            pattern_input: self.pattern_input@,
            focus: self.focus,
            error: text::optional_text(self.error),
        }
    }
}

impl View for InputMode {
    type V = ModeModel;

    open spec fn view(&self) -> ModeModel {
        match self {
            InputMode::Normal => ModeModel::Normal,
            InputMode::Filter { prior } => ModeModel::Filter { prior: prior@ },
            InputMode::Category(m) => ModeModel::Category(m@),
        }
    }
}

impl View for Submission {
    type V = SubmissionModel;

    open spec fn view(&self) -> SubmissionModel {
        match self {
            Submission::AddRule { pattern, category } => SubmissionModel::AddRule {
                pattern: pattern@,
                category: category@,
            },
            Submission::CategorizeOne { id, category } => SubmissionModel::CategorizeOne {
                id: *id as int,
                category: category@,
            },
        }
    }
}

/// The model of what may be submitted.
pub open spec fn submission_model(s: Option<Submission>) -> Option<SubmissionModel> {
    match s {
        Some(s) => Some(s@),
        None => None,
    }
}

// --- The category modal ----------------------------------------------------

/// The window as it opens on a transaction.
pub open spec fn fresh_modal(id: int, pattern: Seq<char>) -> ModalModel {
    ModalModel {
        target_txn_id: id,
        category_input: Seq::empty(),
        apply_to_all: false,
        pattern_input: pattern,
        focus: ModalFocus::Category,
        error: None,
    }
}

/// Where the focus goes from a field. The pattern is passed over unless the
/// category is to be applied to all.
pub open spec fn next_focus(focus: ModalFocus, forward: bool, apply_to_all: bool) -> ModalFocus {
    match focus {
        ModalFocus::Category => if forward || !apply_to_all {
            ModalFocus::Toggle
        } else {
            ModalFocus::Pattern
        },
        ModalFocus::Toggle => if forward && apply_to_all {
            ModalFocus::Pattern
        } else {
            ModalFocus::Category
        },
        ModalFocus::Pattern => if forward {
            ModalFocus::Category
        } else {
            ModalFocus::Toggle
        },
    }
}

/// The pattern has the focus only while it is shown.
pub open spec fn focus_is_shown(m: ModalModel) -> bool {
    m.focus == ModalFocus::Pattern ==> m.apply_to_all
}

impl CategoryModal {
    /// Opens the window on a transaction, with a suggestion for the pattern.
    pub fn new(target_txn_id: i64, default_pattern: String) -> (r: CategoryModal)
        ensures
            r@ == fresh_modal(target_txn_id as int, default_pattern@),
    {
        CategoryModal {
            target_txn_id,
            category_input: String::new(),
            apply_to_all: false,
            pattern_input: default_pattern,
            focus: ModalFocus::Category,
            error: None,
        }
    }

    /// Moves the focus to the next field, or to the one before.
    pub fn cycle_focus(&mut self, forward: bool)
        ensures
            final(self)@ == (ModalModel {
                focus: next_focus(old(self)@.focus, forward, old(self)@.apply_to_all),
                ..old(self)@
            }),
    {
        self.focus = match (self.focus, forward, self.apply_to_all) {
            (ModalFocus::Category, true, _) => ModalFocus::Toggle,
            (ModalFocus::Toggle, true, true) => ModalFocus::Pattern,
            (ModalFocus::Toggle, true, false) => ModalFocus::Category,
            (ModalFocus::Pattern, true, _) => ModalFocus::Category,
            (ModalFocus::Category, false, true) => ModalFocus::Pattern,
            (ModalFocus::Category, false, false) => ModalFocus::Toggle,
            (ModalFocus::Toggle, false, _) => ModalFocus::Category,
            (ModalFocus::Pattern, false, _) => ModalFocus::Toggle,
        };
    }
}

// --- Pattern derivation ----------------------------------------------------

/// A character of numbers and transaction ids.
pub open spec fn id_char(c: char) -> bool {
    numeral::is_digit(c) || c == '-' || c == '#'
}

/// A word that says something of the merchant: no processor prefix such as
/// `TST*`, no number and no transaction id.
pub open spec fn telling(word: Seq<char>) -> bool {
    &&& !word.contains('*')
    &&& exists|i: int| 0 <= i < word.len() && !id_char(#[trigger] word[i])
}

/// The telling words of a description, in order.
pub open spec fn telling_words(description: Seq<char>) -> Seq<Seq<char>> {
    text::words(description).filter(|w: Seq<char>| telling(w))
}

/// The starting pattern for a description: its first three telling words, or
/// its first twenty characters where there are none, in lowercase.
pub open spec fn derived_pattern(description: Seq<char>) -> Seq<char> {
    let kept = telling_words(description);
    if kept.len() == 0 {
        text::first_chars(text::lowercase(description), 20)
    } else {
        text::lowercase(
            text::joined(
                if kept.len() <= 3 {
                    kept
                } else {
                    kept.take(3)
                },
            ),
        )
    }
}

/// Whether a word says something of the merchant.
fn is_telling(word: &str) -> (r: bool)
    ensures
        r == telling(word@),
{
    let v = text::chars_of(word);
    let mut named = false;
    let mut i: usize = 0;
    while i < v.len()
        invariant
            v@ == word@,
            i <= v.len(),
            forall|j: int| 0 <= j < i ==> #[trigger] word@[j] != '*',
            named == exists|j: int| 0 <= j < i && !id_char(#[trigger] word@[j]),
        decreases v.len() - i,
    {
        let c = v[i];
        assert(c == word@[i as int]);
        if c == '*' {
            assert(word@.contains('*'));
            return false;
        }
        if !(('0' <= c && c <= '9') || c == '-' || c == '#') {
            named = true;
        }
        i += 1;
    }
    named
}

/// The starting pattern for a description. It is a guess, which the user can
/// edit.
pub fn derive_pattern(description: &str) -> (r: String)
    ensures
        r@ == derived_pattern(description@),
        telling_words(description@).len() > 0 ==> r@.len() > 0,
{
    let words = text::split_words(description);
    let ghost all = text::words(description@);
    let ghost tells = |w: Seq<char>| telling(w);
    let mut kept: Vec<String> = Vec::new();
    let mut i: usize = 0;
    proof {
        reveal(Seq::filter);
        assert(all.take(0) =~= Seq::<Seq<char>>::empty());
        assert(text::texts(kept@) =~= all.take(0).filter(tells));
    }
    while i < words.len() && kept.len() < 3
        invariant
            i <= words.len(),
            kept.len() <= 3,
            text::texts(words@) == all,
            tells == (|w: Seq<char>| telling(w)),
            text::texts(kept@) == all.take(i as int).filter(tells),
        decreases words.len() - i,
    {
        proof {
            reveal(Seq::filter);
            assert(all.take(i + 1).drop_last() =~= all.take(i as int));
            assert(all.take(i + 1).last() == words@[i as int]@);
        }
        let ghost before = kept@;
        if is_telling(words[i].as_str()) {
            kept.push(words[i].clone());
            assert(text::texts(kept@) =~= text::texts(before).push(words@[i as int]@));
        }
        i += 1;
    }
    proof {
        text::lemma_filter_of_prefix(all, tells, i as int);
        let told = telling_words(description@);
        assert(told == all.filter(tells));
        if told.len() > 3 {
            assert(text::texts(kept@) =~= told.take(3));
        } else if i < words.len() {
            assert(text::texts(kept@) =~= told);
        }
        assert forall|k: int| 0 <= k < kept.len() implies (#[trigger] text::texts(
            kept@,
        )[k]).len() > 0 by {
            assert(telling(all.take(i as int).filter(tells)[k])) by {
                assert(tells(all.take(i as int).filter(tells)[k]));
            }
        }
        text::lemma_joined_length(text::texts(kept@));
    }
    let pattern = text::to_lowercase(text::join(&kept).as_str());
    if pattern.as_str().is_empty() {
        text::take_chars(text::to_lowercase(description).as_str(), 20)
    } else {
        pattern
    }
}

// --- The application: model ------------------------------------------------

/// What is shown, selected and typed.
#[verifier::ext_equal]
pub struct AppModel {
    pub screen: Screen,
    pub transactions: Seq<db::ListedModel>,
    /// The indices of the transactions that pass the filter.
    pub visible: Seq<int>,
    /// The selected row of the transaction table, an index into `visible`.
    pub txn_selected: Option<int>,
    pub categories: Seq<db::SummaryModel>,
    pub cat_selected: Option<int>,
    pub category_list: Seq<Seq<char>>,
    pub filter: Seq<char>,
    pub input_mode: ModeModel,
    pub should_quit: bool,
}

/// The transaction passes the filter: its description holds it, whatever the
/// case.
pub open spec fn passes(row: db::ListedModel, filter: Seq<char>) -> bool {
    text::contains_text(text::lowercase(row.description), text::lowercase(filter))
}

/// The indices of the transactions that pass the filter, in order.
pub open spec fn passing(rows: Seq<db::ListedModel>, filter: Seq<char>) -> Seq<int>
    decreases rows.len(),
{
    if rows.len() == 0 {
        Seq::empty()
    } else {
        let init = passing(rows.drop_last(), filter);
        if passes(rows.last(), filter) {
            init.push(rows.len() - 1)
        } else {
            init
        }
    }
}

/// The selection brought into a table of `len` rows: the first row where there
/// was none, the last row where it lies past the end.
pub open spec fn clamped(selected: Option<int>, len: nat) -> Option<int> {
    if len == 0 {
        None
    } else {
        match selected {
            Some(row) => Some(
                if row < len {
                    row
                } else {
                    len - 1
                },
            ),
            None => Some(0),
        }
    }
}

/// The application with its visible rows brought in line with the filter.
pub open spec fn recomputed(a: AppModel) -> AppModel {
    let visible = passing(a.transactions, a.filter);
    AppModel { visible, txn_selected: clamped(a.txn_selected, visible.len()), ..a }
}

/// The first row, where there is one.
pub open spec fn top_row(len: nat) -> Option<int> {
    if len == 0 {
        None
    } else {
        Some(0)
    }
}

/// The application as it starts.
pub open spec fn started(
    transactions: Seq<db::ListedModel>,
    categories: Seq<db::SummaryModel>,
    category_list: Seq<Seq<char>>,
) -> AppModel {
    let visible = passing(transactions, Seq::empty());
    AppModel {
        screen: Screen::Transactions,
        transactions,
        visible,
        txn_selected: top_row(visible.len()),
        categories,
        cat_selected: top_row(categories.len()),
        category_list,
        filter: Seq::empty(),
        input_mode: ModeModel::Normal,
        should_quit: false,
    }
}

/// The selected transaction, if there is one.
pub open spec fn selected_row(a: AppModel) -> Option<db::ListedModel> {
    match a.txn_selected {
        Some(row) => if 0 <= row < a.visible.len() {
            Some(a.transactions[a.visible[row]])
        } else {
            None
        },
        None => None,
    }
}

/// The id of the selected transaction, if there is one.
pub open spec fn selected_id(a: AppModel) -> Option<int> {
    match selected_row(a) {
        Some(row) => Some(row.id),
        None => None,
    }
}

/// The ids of the visible transactions.
pub open spec fn visible_ids(a: AppModel) -> Seq<int> {
    a.visible.map_values(|i: int| a.transactions[i].id)
}

/// Where an id stands first.
pub open spec fn first_position(ids: Seq<int>, id: int) -> Option<int>
    decreases ids.len(),
{
    if ids.len() == 0 {
        None
    } else {
        match first_position(ids.drop_last(), id) {
            Some(row) => Some(row),
            None => if ids.last() == id {
                Some(ids.len() - 1)
            } else {
                None
            },
        }
    }
}

/// The application with fresh data. The transaction that was selected stays
/// selected; where it is no longer visible, the selection goes to the top.
pub open spec fn reloaded(
    a: AppModel,
    transactions: Seq<db::ListedModel>,
    categories: Seq<db::SummaryModel>,
    category_list: Seq<Seq<char>>,
) -> AppModel {
    let fresh = recomputed(AppModel { transactions, categories, category_list, ..a });
    match selected_id(a) {
        Some(id) => match first_position(visible_ids(fresh), id) {
            Some(row) => AppModel { txn_selected: Some(row), ..fresh },
            None => AppModel { txn_selected: top_row(fresh.visible.len()), ..fresh },
        },
        None => fresh,
    }
}

/// How many rows the table on screen has.
pub open spec fn rows_on_screen(a: AppModel) -> nat {
    match a.screen {
        Screen::Transactions => a.visible.len(),
        Screen::Categories => a.categories.len(),
    }
}

/// The selection in the table on screen.
pub open spec fn selection_on_screen(a: AppModel) -> Option<int> {
    match a.screen {
        Screen::Transactions => a.txn_selected,
        Screen::Categories => a.cat_selected,
    }
}

/// The application with another selection in the table on screen.
pub open spec fn with_selection(a: AppModel, row: int) -> AppModel {
    match a.screen {
        Screen::Transactions => AppModel { txn_selected: Some(row), ..a },
        Screen::Categories => AppModel { cat_selected: Some(row), ..a },
    }
}

/// The row at a distance, or the end of the table where that is nearer.
pub open spec fn row_at(row: int, delta: int, len: nat) -> int {
    if row + delta < 0 {
        0
    } else if row + delta > len - 1 {
        len - 1
    } else {
        row + delta
    }
}

/// The application with the selection moved by a number of rows. A table
/// without a selection is taken to be on its first row.
pub open spec fn moved(a: AppModel, delta: int) -> AppModel {
    let len = rows_on_screen(a);
    let row = match selection_on_screen(a) {
        Some(row) => row,
        None => 0,
    };
    if len == 0 {
        a
    } else {
        with_selection(a, row_at(row, delta, len))
    }
}

/// The application with the first row selected.
pub open spec fn moved_to_first(a: AppModel) -> AppModel {
    if rows_on_screen(a) == 0 {
        a
    } else {
        with_selection(a, 0)
    }
}

/// The application with the last row selected.
pub open spec fn moved_to_last(a: AppModel) -> AppModel {
    if rows_on_screen(a) == 0 {
        a
    } else {
        with_selection(a, rows_on_screen(a) - 1)
    }
}

/// What holds of the application at all times: the visible rows are those that
/// pass the filter, one of them is selected whenever there is one, typing goes
/// on over the transaction table only, and the focus of the modal is shown.
pub open spec fn sound(a: AppModel) -> bool {
    &&& a.visible == passing(a.transactions, a.filter)
    &&& match a.txn_selected {
        Some(row) => 0 <= row < a.visible.len(),
        None => a.visible.len() == 0,
    }
    &&& a.input_mode !is Normal ==> a.screen == Screen::Transactions
    &&& a.input_mode matches ModeModel::Category(m) ==> focus_is_shown(m)
}

// --- The application -------------------------------------------------------

/// What is shown, selected and typed.
pub struct App {
    screen: Screen,
    transactions: Vec<TransactionRow>,
    visible: Vec<usize>,
    txn_selected: Option<usize>,
    categories: Vec<CategorySummary>,
    cat_selected: Option<usize>,
    category_list: Vec<String>,
    filter: String,
    input_mode: InputMode,
    should_quit: bool,
}

/// A row number as a mathematical integer.
pub open spec fn row_number(row: Option<usize>) -> Option<int> {
    match row {
        Some(r) => Some(r as int),
        None => None,
    }
}

/// Row numbers as mathematical integers.
pub open spec fn row_numbers(rows: Seq<usize>) -> Seq<int> {
    rows.map_values(|r: usize| r as int)
}

impl View for App {
    type V = AppModel;

    closed spec fn view(&self) -> AppModel {
        AppModel {
            screen: self.screen,
            transactions: db::listed_models(self.transactions@),
            visible: row_numbers(self.visible@),
            txn_selected: row_number(self.txn_selected),
            categories: db::summary_models(self.categories@),
            cat_selected: row_number(self.cat_selected),
            category_list: text::texts(self.category_list@),
            filter: self.filter@,
            input_mode: self.input_mode@,
            should_quit: self.should_quit,
        }
    }
}

impl App {
    /// What holds of the application at all times.
    pub open spec fn wf(&self) -> bool {
        sound(self@)
    }

    /// Starts the application on the data of the database.
    pub fn new(
        transactions: Vec<TransactionRow>,
        categories: Vec<CategorySummary>,
        category_list: Vec<String>,
    ) -> (r: App)
        ensures
            r.wf(),
            r@ == started(
                db::listed_models(transactions@),
                db::summary_models(categories@),
                text::texts(category_list@),
            ),
    {
        let cat_selected: Option<usize> = if categories.len() == 0 {
            None
        } else {
            Some(0)
        };
        let mut app = App {
            screen: Screen::Transactions,
            transactions,
            visible: Vec::new(),
            txn_selected: None,
            categories,
            cat_selected,
            category_list,
            filter: String::new(),
            input_mode: InputMode::Normal,
            should_quit: false,
        };
        app.recompute_visible();
        app
    }

    /// Brings the visible rows in line with the filter, and the selection into
    /// them.
    pub fn recompute_visible(&mut self)
        ensures
            final(self)@ == recomputed(old(self)@),
    {
        let lowered = text::to_lowercase(self.filter.as_str());
        let ghost rows = self@.transactions;
        let mut visible: Vec<usize> = Vec::new();
        let mut i: usize = 0;
        assert(rows.take(0) =~= Seq::<db::ListedModel>::empty());
        assert(row_numbers(visible@) =~= Seq::<int>::empty());
        while i < self.transactions.len()
            invariant
                *self == *old(self),
                i <= self.transactions.len(),
                rows == self@.transactions,
                lowered@ == text::lowercase(self@.filter),
                row_numbers(visible@) == passing(rows.take(i as int), self@.filter),
            decreases self.transactions.len() - i,
        {
            let description = text::to_lowercase(self.transactions[i].description.as_str());
            proof {
                assert(rows.take(i + 1).drop_last() =~= rows.take(i as int));
                assert(rows.take(i + 1).last() == self.transactions@[i as int]@);
            }
            let ghost before = visible@;
            if text::contains(description.as_str(), lowered.as_str()) {
                visible.push(i);
                assert(row_numbers(visible@) =~= row_numbers(before).push(i as int));
            }
            i += 1;
        }
        assert(rows.take(rows.len() as int) =~= rows);
        let len = visible.len();
        assert(row_numbers(visible@).len() == len);
        self.visible = visible;
        if len == 0 {
            self.txn_selected = None;
        } else if let Some(row) = self.txn_selected {
            if row >= len {
                self.txn_selected = Some(len - 1);
            }
        } else {
            self.txn_selected = Some(0);
        }
    }

    /// Takes over fresh data from the database, and tries to keep the user on
    /// the same transaction. Where that is no longer visible, falls back to the
    /// top.
    pub fn reload(
        &mut self,
        transactions: Vec<TransactionRow>,
        categories: Vec<CategorySummary>,
        category_list: Vec<String>,
    )
        requires
            old(self).wf(),
        ensures
            final(self).wf(),
            final(self)@ == reloaded(
                old(self)@,
                db::listed_models(transactions@),
                db::summary_models(categories@),
                text::texts(category_list@),
            ),
    {
        let previous = self.selected_txn_id();
        self.transactions = transactions;
        self.categories = categories;
        self.category_list = category_list;
        self.recompute_visible();
        if let Some(id) = previous {
            let position = self.position_of(id);
            proof {
                lemma_first_position(visible_ids(self@), id as int);
            }
            self.txn_selected = match position {
                Some(row) => Some(row),
                None => if self.visible.len() == 0 {
                    None
                } else {
                    Some(0)
                },
            };
        }
    }

    /// Where a transaction stands first among the visible ones.
    fn position_of(&self, id: i64) -> (r: Option<usize>)
        requires
            self@.visible == passing(self@.transactions, self@.filter),
        ensures
            row_number(r) == first_position(visible_ids(self@), id as int),
    {
        let ghost ids = visible_ids(self@);
        let mut row: usize = 0;
        assert(ids.take(0) =~= Seq::<int>::empty());
        while row < self.visible.len()
            invariant
                row <= self.visible.len(),
                ids == visible_ids(self@),
                self@.visible == passing(self@.transactions, self@.filter),
                first_position(ids.take(row as int), id as int) is None,
            decreases self.visible.len() - row,
        {
            proof {
                passing_rows_are_the_matches(self@.transactions, self@.filter);
                assert(self@.visible[row as int] == self.visible@[row as int]);
                assert(ids.take(row + 1).drop_last() =~= ids.take(row as int));
            }
            let i = self.visible[row];
            assert(ids[row as int] == self.transactions@[i as int].id);
            if self.transactions[i].id == id {
                proof {
                    lemma_first_position_settled(ids, id as int, row + 1);
                }
                return Some(row);
            }
            row += 1;
        }
        assert(ids.take(ids.len() as int) =~= ids);
        None
    }

    /// The id of the selected transaction.
    pub fn selected_txn_id(&self) -> (r: Option<i64>)
        requires
            self.wf(),
        ensures
            (match r {
                Some(id) => selected_id(self@) == Some(id as int),
                None => selected_id(self@) is None,
            }),
    {
        match self.selected_txn() {
            Some(row) => Some(row.id),
            None => None,
        }
    }

    /// The selected transaction.
    pub fn selected_txn(&self) -> (r: Option<&TransactionRow>)
        requires
            self.wf(),
        ensures
            (match r {
                Some(row) => selected_row(self@) == Some(row@),
                None => selected_row(self@) is None,
            }),
    {
        match self.txn_selected {
            Some(row) => {
                proof {
                    passing_rows_are_the_matches(self@.transactions, self@.filter);
                    assert(self@.visible[row as int] == self.visible@[row as int]);
                }
                Some(&self.transactions[self.visible[row]])
            },
            None => None,
        }
    }
}

// --- What is shown ---------------------------------------------------------

impl App {
    /// Which table is on screen.
    pub fn screen(&self) -> (r: Screen)
        ensures
            r == self@.screen,
    {
        self.screen
    }

    /// The transactions, whether they pass the filter or not.
    pub fn transactions(&self) -> (r: &Vec<TransactionRow>)
        ensures
            db::listed_models(r@) == self@.transactions,
    {
        &self.transactions
    }

    /// The indices of the transactions that pass the filter.
    pub fn visible(&self) -> (r: &Vec<usize>)
        ensures
            row_numbers(r@) == self@.visible,
    {
        &self.visible
    }

    /// The selected row of the transaction table.
    pub fn txn_selected(&self) -> (r: Option<usize>)
        ensures
            row_number(r) == self@.txn_selected,
    {
        self.txn_selected
    }

    /// The rows of the category table.
    pub fn categories(&self) -> (r: &Vec<CategorySummary>)
        ensures
            db::summary_models(r@) == self@.categories,
    {
        &self.categories
    }

    /// The selected row of the category table.
    pub fn cat_selected(&self) -> (r: Option<usize>)
        ensures
            row_number(r) == self@.cat_selected,
    {
        self.cat_selected
    }

    /// The categories that are in use.
    pub fn category_list(&self) -> (r: &Vec<String>)
        ensures
            text::texts(r@) == self@.category_list,
    {
        &self.category_list
    }

    /// The filter.
    pub fn filter(&self) -> (r: &str)
        ensures
            r@ == self@.filter,
    {
        self.filter.as_str()
    }

    /// Where the user is typing.
    pub fn input_mode(&self) -> (r: &InputMode)
        ensures
            r@ == self@.input_mode,
    {
        &self.input_mode
    }

    /// Whether the user asked to quit.
    pub fn should_quit(&self) -> (r: bool)
        ensures
            r == self@.should_quit,
    {
        self.should_quit
    }
}

// --- Navigation ------------------------------------------------------------

impl App {
    /// The selection in the table on screen, and how many rows that has.
    fn cur_state(&self) -> (r: (Option<usize>, usize))
        ensures
            row_number(r.0) == selection_on_screen(self@),
            r.1 == rows_on_screen(self@),
    {
        match self.screen {
            Screen::Transactions => (self.txn_selected, self.visible.len()),
            Screen::Categories => (self.cat_selected, self.categories.len()),
        }
    }

    /// Selects a row of the table on screen.
    fn select(&mut self, row: usize)
        ensures
            final(self)@ == with_selection(old(self)@, row as int),
    {
        match self.screen {
            Screen::Transactions => {
                self.txn_selected = Some(row);
            },
            Screen::Categories => {
                self.cat_selected = Some(row);
            },
        }
    }

    /// Moves the selection in the table on screen by a number of rows, as far
    /// as the table goes.
    pub fn move_by(&mut self, delta: i64)
        requires
            old(self).wf(),
        ensures
            final(self).wf(),
            final(self)@ == moved(old(self)@, delta as int),
    {
        let (selected, len) = self.cur_state();
        if len == 0 {
            return;
        }
        let row: usize = match selected {
            Some(r) => r,
            None => 0,
        };
        let last: usize = len - 1;
        let step: u64 = numeral::magnitude(delta);
        let target: usize = if delta >= 0 {
            if row >= last || step >= (last - row) as u64 {
                last
            } else {
                row + step as usize
            }
        } else if step >= row as u64 {
            0
        } else if row - step as usize > last {
            last
        } else {
            row - step as usize
        };
        self.select(target);
    }

    /// Selects the first row of the table on screen.
    pub fn select_first(&mut self)
        requires
            old(self).wf(),
        ensures
            final(self).wf(),
            final(self)@ == moved_to_first(old(self)@),
    {
        let (_, len) = self.cur_state();
        if len > 0 {
            self.select(0);
        }
    }

    /// Selects the last row of the table on screen.
    pub fn select_last(&mut self)
        requires
            old(self).wf(),
        ensures
            final(self).wf(),
            final(self)@ == moved_to_last(old(self)@),
    {
        let (_, len) = self.cur_state();
        if len > 0 {
            self.select(len - 1);
        }
    }

    /// Takes over the selection that the category table has after it was drawn.
    /// Drawing brings a selection that lies past the last row back to it.
    pub fn categories_drawn(&mut self, selected: Option<usize>)
        requires
            old(self).wf(),
        ensures
            final(self).wf(),
            final(self)@ == (AppModel { cat_selected: row_number(selected), ..old(self)@ }),
    {
        self.cat_selected = selected;
    }
}

// --- Key dispatch: model ---------------------------------------------------

/// The other table.
pub open spec fn other_screen(screen: Screen) -> Screen {
    match screen {
        Screen::Transactions => Screen::Categories,
        Screen::Categories => Screen::Transactions,
    }
}

/// What a key does while nothing is being typed.
pub open spec fn normal_key(a: AppModel, key: Key) -> AppModel {
    match key {
        Key::Esc => AppModel { should_quit: true, ..a },
        Key::Tab | Key::BackTab => AppModel { screen: other_screen(a.screen), ..a },
        Key::Down => moved(a, 1),
        Key::Up => moved(a, -1),
        Key::PageDown => moved(a, 20),
        Key::PageUp => moved(a, -20),
        Key::Home => moved_to_first(a),
        Key::End => moved_to_last(a),
        Key::Char(c) => if c == 'q' {
            AppModel { should_quit: true, ..a }
        } else if c == 'j' {
            moved(a, 1)
        } else if c == 'k' {
            moved(a, -1)
        } else if c == 'g' {
            moved_to_first(a)
        } else if c == 'G' {
            moved_to_last(a)
        } else if c == '/' && a.screen == Screen::Transactions {
            AppModel { input_mode: ModeModel::Filter { prior: a.filter }, ..a }
        } else if c == 'c' && a.screen == Screen::Transactions {
            match selected_row(a) {
                Some(row) => AppModel {
                    input_mode: ModeModel::Category(
                        fresh_modal(row.id, derived_pattern(row.description)),
                    ),
                    ..a
                },
                None => a,
            }
        } else {
            a
        },
        _ => a,
    }
}

/// The filter to go back to when typing is cancelled.
pub open spec fn prior_filter(mode: ModeModel) -> Seq<char> {
    match mode {
        ModeModel::Filter { prior } => prior,
        _ => Seq::empty(),
    }
}

/// What a key does while the filter is being typed.
pub open spec fn filter_key(a: AppModel, key: Key) -> AppModel {
    match key {
        Key::Esc => recomputed(
            AppModel { filter: prior_filter(a.input_mode), input_mode: ModeModel::Normal, ..a },
        ),
        Key::Enter => AppModel { input_mode: ModeModel::Normal, ..a },
        Key::Backspace => recomputed(
            AppModel {
                filter: if a.filter.len() == 0 {
                    a.filter
                } else {
                    a.filter.drop_last()
                },
                ..a
            },
        ),
        Key::Char(c) => recomputed(AppModel { filter: a.filter.push(c), ..a }),
        _ => a,
    }
}

/// A text after a key was typed at its end.
pub open spec fn edited(s: Seq<char>, key: Key) -> Seq<char> {
    match key {
        Key::Char(c) => s.push(c),
        Key::Backspace => if s.len() == 0 {
            s
        } else {
            s.drop_last()
        },
        _ => s,
    }
}

/// The window after a key was typed into the field that has the focus. The
/// error goes away.
pub open spec fn typed_into(m: ModalModel, key: Key) -> ModalModel {
    let m = ModalModel { error: None, ..m };
    match m.focus {
        ModalFocus::Category => ModalModel { category_input: edited(m.category_input, key), ..m },
        ModalFocus::Pattern => ModalModel { pattern_input: edited(m.pattern_input, key), ..m },
        ModalFocus::Toggle => m,
    }
}

/// Why the input cannot be applied, if it cannot.
pub open spec fn input_error(m: ModalModel) -> Option<Seq<char>> {
    if text::trimmed(m.category_input).len() == 0 {
        Some("Category cannot be empty"@)
    } else if m.apply_to_all && text::trimmed(m.pattern_input).len() == 0 {
        Some("Pattern required when 'Apply to all' is on"@)
    } else {
        None
    }
}

/// What is written when the input is applied.
pub open spec fn submission(m: ModalModel) -> SubmissionModel {
    let category = text::trimmed(m.category_input);
    if m.apply_to_all {
        SubmissionModel::AddRule { pattern: text::trimmed(m.pattern_input), category }
    } else {
        SubmissionModel::CategorizeOne { id: m.target_txn_id, category }
    }
}

/// What a key makes of the window, as long as it stays open.
pub open spec fn modal_key(m: ModalModel, key: Key) -> ModalModel {
    match key {
        Key::Tab => ModalModel { focus: next_focus(m.focus, true, m.apply_to_all), ..m },
        Key::BackTab => ModalModel { focus: next_focus(m.focus, false, m.apply_to_all), ..m },
        Key::Enter => match input_error(m) {
            Some(message) => ModalModel { error: Some(message), ..m },
            None => m,
        },
        Key::Char(c) => if c == ' ' && m.focus == ModalFocus::Toggle {
            ModalModel { apply_to_all: !m.apply_to_all, ..m }
        } else {
            typed_into(m, key)
        },
        _ => typed_into(m, key),
    }
}

/// What a key does while a transaction is being categorized.
pub open spec fn category_key(a: AppModel, key: Key) -> AppModel {
    match a.input_mode {
        ModeModel::Category(m) => if key == Key::Esc {
            AppModel { input_mode: ModeModel::Normal, ..a }
        } else {
            AppModel { input_mode: ModeModel::Category(modal_key(m, key)), ..a }
        },
        _ => a,
    }
}

/// What a key asks to have written, if anything: Enter applies the input of the
/// window where it can be applied.
pub open spec fn asked(a: AppModel, key: Key) -> Option<SubmissionModel> {
    match a.input_mode {
        ModeModel::Category(m) => if key == Key::Enter && input_error(m) is None {
            Some(submission(m))
        } else {
            None
        },
        _ => None,
    }
}

/// What a key does.
pub open spec fn pressed(a: AppModel, key: Key) -> AppModel {
    match a.input_mode {
        ModeModel::Normal => normal_key(a, key),
        ModeModel::Filter { .. } => filter_key(a, key),
        ModeModel::Category(_) => category_key(a, key),
    }
}

/// The application after what was asked for was written, or could not be: on
/// success the window closes, on failure it shows why.
pub open spec fn submitted(a: AppModel, failure: Option<Seq<char>>) -> AppModel {
    match failure {
        None => AppModel { input_mode: ModeModel::Normal, ..a },
        Some(message) => match a.input_mode {
            ModeModel::Category(m) => AppModel {
                input_mode: ModeModel::Category(ModalModel { error: Some(message), ..m }),
                ..a
            },
            _ => a,
        },
    }
}

// --- Key dispatch ----------------------------------------------------------

impl CategoryModal {
    /// Types a key into the field that has the focus.
    fn type_key(&mut self, key: Key)
        ensures
            final(self)@ == typed_into(old(self)@, key),
    {
        self.error = None;
        match self.focus {
            ModalFocus::Category => type_into(&mut self.category_input, key),
            ModalFocus::Pattern => type_into(&mut self.pattern_input, key),
            ModalFocus::Toggle => {},
        }
    }

    /// What is written when the input is applied, or the message that says why
    /// it cannot be.
    fn check_input(&self) -> (r: Result<Submission, String>)
        ensures
            (match r {
                Ok(s) => input_error(self@) is None && s@ == submission(self@),
                Err(message) => input_error(self@) == Some(message@),
            }),
    {
        let category = text::trim(self.category_input.as_str());
        if category.as_str().is_empty() {
            return Err("Category cannot be empty".to_owned());
        }
        if self.apply_to_all {
            let pattern = text::trim(self.pattern_input.as_str());
            if pattern.as_str().is_empty() {
                return Err("Pattern required when 'Apply to all' is on".to_owned());
            }
            Ok(Submission::AddRule { pattern, category })
        } else {
            Ok(Submission::CategorizeOne { id: self.target_txn_id, category })
        }
    }

    /// Takes a key other than Esc. Says what is to be written, if anything.
    fn take_key(&mut self, key: Key) -> (r: Option<Submission>)
        requires
            key != Key::Esc,
        ensures
            final(self)@ == modal_key(old(self)@, key),
            submission_model(r) == (if key == Key::Enter && input_error(old(self)@) is None {
                Some(submission(old(self)@))
            } else {
                None
            }),
    {
        match key {
            Key::Tab => {
                self.cycle_focus(true);
                None
            },
            Key::BackTab => {
                self.cycle_focus(false);
                None
            },
            Key::Enter => match self.check_input() {
                Ok(s) => Some(s),
                Err(message) => {
                    self.error = Some(message);
                    None
                },
            },
            Key::Char(c) => {
                // Space flips the checkbox when it has the focus; everywhere
                // else it is a character like any other.
                if c == ' ' && self.focus == ModalFocus::Toggle {
                    self.apply_to_all = !self.apply_to_all;
                } else {
                    self.type_key(key);
                }
                None
            },
            _ => {
                self.type_key(key);
                None
            },
        }
    }
}

/// Types a key at the end of a text.
fn type_into(s: &mut String, key: Key)
    ensures
        final(s)@ == edited(old(s)@, key),
{
    match key {
        Key::Char(c) => s.push(c),
        Key::Backspace => {
            let _ = s.pop();
        },
        _ => {},
    }
}

/// Takes a key while nothing is being typed.
pub fn handle_normal(app: &mut App, key: Key)
    requires
        old(app).wf(),
        old(app)@.input_mode is Normal,
    ensures
        final(app).wf(),
        final(app)@ == normal_key(old(app)@, key),
{
    match key {
        Key::Esc => {
            app.should_quit = true;
        },
        Key::Tab | Key::BackTab => {
            app.screen = match app.screen {
                Screen::Transactions => Screen::Categories,
                Screen::Categories => Screen::Transactions,
            };
        },
        Key::Down => app.move_by(1),
        Key::Up => app.move_by(-1),
        Key::PageDown => app.move_by(20),
        Key::PageUp => app.move_by(-20),
        Key::Home => app.select_first(),
        Key::End => app.select_last(),
        Key::Char(c) => {
            if c == 'q' {
                app.should_quit = true;
            } else if c == 'j' {
                app.move_by(1);
            } else if c == 'k' {
                app.move_by(-1);
            } else if c == 'g' {
                app.select_first();
            } else if c == 'G' {
                app.select_last();
            } else if c == '/' && app.screen == Screen::Transactions {
                app.input_mode = InputMode::Filter { prior: app.filter.clone() };
            } else if c == 'c' && app.screen == Screen::Transactions {
                let modal = match app.selected_txn() {
                    Some(row) => Some(
                        CategoryModal::new(row.id, derive_pattern(row.description.as_str())),
                    ),
                    None => None,
                };
                if let Some(m) = modal {
                    app.input_mode = InputMode::Category(m);
                }
            }
        },
        _ => {},
    }
}

/// Takes a key as it is taken while the filter is being typed.
pub fn handle_filter(app: &mut App, key: Key)
    requires
        old(app).wf(),
    ensures
        final(app).wf(),
        final(app)@ == filter_key(old(app)@, key),
{
    match key {
        Key::Esc => {
            // Back to the filter that was active when typing began.
            let prior = match &app.input_mode {
                InputMode::Filter { prior } => prior.clone(),
                _ => String::new(),
            };
            app.filter = prior;
            app.input_mode = InputMode::Normal;
            app.recompute_visible();
        },
        Key::Enter => {
            app.input_mode = InputMode::Normal;
        },
        Key::Backspace => {
            let _ = app.filter.pop();
            app.recompute_visible();
        },
        Key::Char(c) => {
            app.filter.push(c);
            app.recompute_visible();
        },
        _ => {},
    }
}

/// Takes a key while a transaction is being categorized. Says what is to be
/// written, if anything.
pub fn handle_category(app: &mut App, key: Key) -> (r: Option<Submission>)
    requires
        old(app).wf(),
    ensures
        final(app).wf(),
        final(app)@ == category_key(old(app)@, key),
        submission_model(r) == asked(old(app)@, key),
{
    match &mut app.input_mode {
        InputMode::Category(m) => {
            if key == Key::Esc {
                app.input_mode = InputMode::Normal;
                None
            } else {
                m.take_key(key)
            }
        },
        _ => None,
    }
}

/// Takes a key. Each mode has its own bindings: those of one never fire in
/// another. Says what is to be written, if anything.
pub fn handle_key(app: &mut App, key: Key) -> (r: Option<Submission>)
    requires
        old(app).wf(),
    ensures
        final(app).wf(),
        final(app)@ == pressed(old(app)@, key),
        submission_model(r) == asked(old(app)@, key),
{
    match app.input_mode {
        InputMode::Normal => {
            handle_normal(app, key);
            None
        },
        InputMode::Filter { .. } => {
            handle_filter(app, key);
            None
        },
        InputMode::Category(_) => handle_category(app, key),
    }
}

/// What is asked for can be written: neither the category nor the pattern of a
/// rule is blank.
pub open spec fn acceptable(s: SubmissionModel) -> bool {
    match s {
        SubmissionModel::AddRule { pattern, category } => text::trimmed(pattern).len() > 0
            && text::trimmed(category).len() > 0,
        SubmissionModel::CategorizeOne { id, category } => text::trimmed(category).len() > 0,
    }
}

/// What the tables become when what is asked for is written.
pub open spec fn tables_after(t: ledger::Tables, s: SubmissionModel) -> ledger::Tables {
    match s {
        SubmissionModel::AddRule { pattern, category } => categorize::rule_added(
            t,
            text::lowercase(text::trimmed(pattern)),
            text::trimmed(category),
        ),
        SubmissionModel::CategorizeOne { id, category } => categorize::categorized_by_id(
            t,
            id,
            text::trimmed(category),
        ),
    }
}

/// Writes what was asked for into the ledger.
pub fn perform(book: &mut Ledger, s: &Submission) -> (r: Result<(), CategorizeError>)
    requires
        old(book).wf(),
    ensures
        final(book).wf(),
        final(book).opened() == old(book).opened(),
        r is Ok <==> acceptable(s@),
        r is Ok ==> final(book)@ == tables_after(old(book)@, s@),
        r is Err ==> final(book)@ == old(book)@ && final(book).writes() == old(book).writes(),
        r matches Err(e) ==> e == (match s@ {
            SubmissionModel::AddRule { .. } => CategorizeError::EmptyRule,
            SubmissionModel::CategorizeOne { .. } => CategorizeError::EmptyCategory,
        }),
{
    match s {
        Submission::AddRule { pattern, category } => match categorize::add_rule(
            book,
            pattern.as_str(),
            category.as_str(),
        ) {
            Ok(_) => Ok(()),
            Err(e) => Err(e),
        },
        Submission::CategorizeOne { id, category } => match categorize::categorize_one(
            book,
            *id,
            category.as_str(),
        ) {
            Ok(_) => Ok(()),
            Err(e) => Err(e),
        },
    }
}

/// Takes the outcome of what was asked for: nothing where it was written, the
/// message where it failed. After a success the data is to be reloaded.
pub fn finish_submission(app: &mut App, failure: Option<String>)
    requires
        old(app).wf(),
    ensures
        final(app).wf(),
        final(app)@ == submitted(old(app)@, text::optional_text(failure)),
{
    match failure {
        None => {
            app.input_mode = InputMode::Normal;
        },
        Some(message) => {
            if let InputMode::Category(m) = &mut app.input_mode {
                m.error = Some(message);
            }
        },
    }
}

/// The visible rows are exactly the transactions that pass the filter, each
/// once and in order.
pub proof fn passing_rows_are_the_matches(rows: Seq<db::ListedModel>, filter: Seq<char>)
    ensures
        ({
            let v = passing(rows, filter);
            &&& forall|k: int|
                0 <= k < v.len() ==> 0 <= #[trigger] v[k] < rows.len() && passes(rows[v[k]], filter)
            &&& forall|k: int, l: int| 0 <= k < l < v.len() ==> #[trigger] v[k] < #[trigger] v[l]
            &&& forall|i: int|
                0 <= i < rows.len() && passes(#[trigger] rows[i], filter) ==> v.contains(i)
        }),
    decreases rows.len(),
{
    if rows.len() > 0 {
        let init = rows.drop_last();
        let u = passing(init, filter);
        let v = passing(rows, filter);
        passing_rows_are_the_matches(init, filter);
        assert forall|k: int| 0 <= k < v.len() implies 0 <= #[trigger] v[k] < rows.len() && passes(
            rows[v[k]],
            filter,
        ) by {
            if k < u.len() {
                assert(v[k] == u[k]);
                assert(rows[v[k]] == init[u[k]]);
            }
        }
        assert forall|k: int, l: int| 0 <= k < l < v.len() implies #[trigger] v[k]
            < #[trigger] v[l] by {
            assert(v[k] == u[k]);
            if l < u.len() {
                assert(v[l] == u[l]);
            }
        }
        assert forall|i: int| 0 <= i < rows.len() && passes(
            #[trigger] rows[i],
            filter,
        ) implies v.contains(i) by {
            if i < init.len() {
                assert(init[i] == rows[i]);
                let k = choose|k: int| 0 <= k < u.len() && u[k] == i;
                assert(v[k] == i);
            } else {
                assert(v[u.len() as int] == i);
            }
        }
    }
}

/// The position of an id is one at which it stands.
pub proof fn lemma_first_position(ids: Seq<int>, id: int)
    ensures
        first_position(ids, id) matches Some(row) ==> 0 <= row < ids.len() && ids[row] == id,
        first_position(ids, id) is None <==> !ids.contains(id),
    decreases ids.len(),
{
    if ids.len() > 0 {
        lemma_first_position(ids.drop_last(), id);
        if ids.contains(id) {
            let k = choose|k: int| 0 <= k < ids.len() && ids[k] == id;
            if k < ids.len() - 1 {
                assert(ids.drop_last()[k] == id);
            }
        }
        if ids.drop_last().contains(id) {
            let k = choose|k: int| 0 <= k < ids.len() - 1 && ids.drop_last()[k] == id;
            assert(ids[k] == id);
        }
    }
}

/// The position of an id is settled by the rows up to it.
proof fn lemma_first_position_settled(ids: Seq<int>, id: int, n: int)
    requires
        0 <= n <= ids.len(),
        first_position(ids.take(n), id) is Some,
    ensures
        first_position(ids, id) == first_position(ids.take(n), id),
    decreases ids.len(),
{
    if n == ids.len() {
        assert(ids.take(n) =~= ids);
    } else {
        assert(ids.drop_last().take(n) =~= ids.take(n));
        lemma_first_position_settled(ids.drop_last(), id, n);
    }
}

} // verus!
