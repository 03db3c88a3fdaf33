//! What holds of the terminal interface as a whole, across keys.

use crate::categorize;
use crate::db;
use crate::laws;
use crate::ledger;
use crate::numeral;
use crate::screen;
use crate::text;
use crate::text_laws;
use crate::tui;
use crate::tui::{Key, ModalFocus, Screen};
use vstd::prelude::*;

verus! {

// --- The filter ------------------------------------------------------------

/// Without a filter every transaction is visible.
pub proof fn empty_filter_shows_everything(rows: Seq<db::ListedModel>)
    ensures
        tui::passing(rows, Seq::empty()) == Seq::new(rows.len(), |i: int| i),
    decreases rows.len(),
{
    if rows.len() > 0 {
        empty_filter_shows_everything(rows.drop_last());
        let hay = text::lowercase(rows.last().description);
        let nothing = text::lowercase(Seq::<char>::empty());
        assert(nothing =~= Seq::<char>::empty());
        assert(hay.subrange(0, 0) =~= nothing);
        assert(text::occurs_at(hay, nothing, 0));
        assert(tui::passing(rows, Seq::empty()) =~= Seq::new(rows.len(), |i: int| i));
    } else {
        assert(tui::passing(rows, Seq::empty()) =~= Seq::new(rows.len(), |i: int| i));
    }
}

/// The application after a sequence of keys.
pub open spec fn after_keys(a: tui::AppModel, keys: Seq<Key>) -> tui::AppModel
    decreases keys.len(),
{
    if keys.len() == 0 {
        a
    } else {
        tui::pressed(after_keys(a, keys.drop_last()), keys.last())
    }
}

/// None of the keys ends the typing.
pub open spec fn keeps_typing(keys: Seq<Key>) -> bool {
    forall|i: int|
        0 <= i < keys.len() ==> #[trigger] keys[i] != Key::Esc && keys[i] != Key::Enter
}

/// What typing a filter leaves alone.
pub open spec fn same_but_filter(a: tui::AppModel, b: tui::AppModel) -> bool {
    b == (tui::AppModel {
        visible: b.visible,
        txn_selected: b.txn_selected,
        filter: b.filter,
        input_mode: b.input_mode,
        ..a
    })
}

/// While a filter is being typed, the filter to go back to stays.
proof fn lemma_typing_keeps_prior(a: tui::AppModel, keys: Seq<Key>)
    requires
        a.input_mode is Filter,
        keeps_typing(keys),
    ensures
        after_keys(a, keys).input_mode == a.input_mode,
        same_but_filter(a, after_keys(a, keys)),
    decreases keys.len(),
{
    if keys.len() > 0 {
        let init = keys.drop_last();
        assert forall|i: int| 0 <= i < init.len() implies #[trigger] init[i] != Key::Esc && init[i]
            != Key::Enter by {
            assert(init[i] == keys[i]);
        }
        lemma_typing_keeps_prior(a, init);
        assert(keys.last() == keys[keys.len() - 1]);
    }
}

/// Whatever is typed into the filter, Esc goes back to the filter and the rows
/// that were there when typing began.
pub proof fn escape_restores_the_filter(a: tui::AppModel, keys: Seq<Key>)
    requires
        tui::sound(a),
        a.input_mode is Normal,
        a.screen == Screen::Transactions,
        keeps_typing(keys),
    ensures
        ({
            let typed = after_keys(tui::pressed(a, Key::Char('/')), keys);
            let b = tui::pressed(typed, Key::Esc);
            b == (tui::AppModel { txn_selected: b.txn_selected, ..a })
        }),
{
    let opened = tui::pressed(a, Key::Char('/'));
    lemma_typing_keeps_prior(opened, keys);
}

/// Enter leaves the filter and the rows as they were typed.
pub proof fn enter_commits_the_filter(a: tui::AppModel)
    requires
        a.input_mode is Filter,
    ensures
        tui::pressed(a, Key::Enter) == (tui::AppModel {
            input_mode: tui::ModeModel::Normal,
            ..a
        }),
{
}

// --- Modes -----------------------------------------------------------------

/// While the user is typing, no key quits, switches the table or moves the
/// selection in the category table.
pub proof fn typing_triggers_no_binding(a: tui::AppModel, key: Key)
    requires
        a.input_mode !is Normal,
    ensures
        same_but_filter(a, tui::pressed(a, key)),
{
}

/// While a transaction is being categorized, a key changes nothing but the
/// window.
pub proof fn modal_keys_stay_in_the_modal(a: tui::AppModel, key: Key)
    requires
        a.input_mode is Category,
    ensures
        tui::pressed(a, key) == (tui::AppModel {
            input_mode: tui::pressed(a, key).input_mode,
            ..a
        }),
{
}

/// Every key keeps the application sound.
pub proof fn keys_keep_soundness(a: tui::AppModel, keys: Seq<Key>)
    requires
        tui::sound(a),
    ensures
        tui::sound(after_keys(a, keys)),
    decreases keys.len(),
{
    if keys.len() > 0 {
        keys_keep_soundness(a, keys.drop_last());
    }
}

/// Switching the table twice comes back to the first.
pub proof fn tab_twice_comes_back(a: tui::AppModel)
    requires
        a.input_mode is Normal,
    ensures
        tui::pressed(tui::pressed(a, Key::Tab), Key::Tab) == a,
{
}

// --- The category modal ----------------------------------------------------

/// `c` opens the window on the selected transaction, whenever one is visible.
pub proof fn modal_opens_on_the_selected_transaction(a: tui::AppModel)
    requires
        tui::sound(a),
        a.input_mode is Normal,
        a.screen == Screen::Transactions,
    ensures
        a.visible.len() > 0 <==> tui::pressed(a, Key::Char('c')).input_mode is Category,
        tui::pressed(a, Key::Char('c')).input_mode matches tui::ModeModel::Category(m)
            ==> tui::selected_id(a) == Some(m.target_txn_id),
{
}

/// Going back undoes going forward through the fields, and the other way round.
pub proof fn focus_goes_back_and_forth(m: tui::ModalModel)
    requires
        tui::focus_is_shown(m),
    ensures
        tui::next_focus(
            tui::next_focus(m.focus, true, m.apply_to_all),
            false,
            m.apply_to_all,
        ) == m.focus,
        tui::next_focus(
            tui::next_focus(m.focus, false, m.apply_to_all),
            true,
            m.apply_to_all,
        ) == m.focus,
{
}

/// The focus goes round all the fields that are shown, and no others.
pub proof fn focus_goes_round(m: tui::ModalModel, field: ModalFocus)
    requires
        tui::focus_is_shown(m),
    ensures
        ({
            let next = tui::next_focus(m.focus, true, m.apply_to_all);
            let third = tui::next_focus(next, true, m.apply_to_all);
            (field == m.focus || field == next || field == third) <==> (field
                == ModalFocus::Pattern ==> m.apply_to_all)
        }),
{
}

/// A failed attempt to apply changes nothing but the error, so that what was
/// typed is not lost.
pub proof fn failure_keeps_the_input(a: tui::AppModel, message: Seq<char>, m: tui::ModalModel)
    requires
        a.input_mode == tui::ModeModel::Category(m),
    ensures
        tui::submitted(a, Some(message)) == (tui::AppModel {
            input_mode: tui::ModeModel::Category(
                tui::ModalModel { error: Some(message), ..m },
            ),
            ..a
        }),
{
}

/// A text without white space at its ends stays as it is when it is trimmed.
proof fn lemma_trimmed(s: Seq<char>)
    ensures
        text::trimmed(text::trimmed(s)) == text::trimmed(s),
{
    let t = text::trim_start(s);
    let u = text::trim_end(t);
    lemma_trim_start(s);
    lemma_trim_end(t);
    if u.len() > 0 {
        assert(u[0] == t[0]);
    }
}

/// What is left after trimming the start does not begin with white space.
proof fn lemma_trim_start(s: Seq<char>)
    ensures
        text::trim_start(s).len() > 0 ==> !text::white_space(text::trim_start(s)[0]),
    decreases s.len(),
{
    if s.len() > 0 && text::white_space(s[0]) {
        lemma_trim_start(s.drop_first());
    }
}

/// What is left after trimming the end is a beginning of the text, and does not
/// end with white space.
proof fn lemma_trim_end(s: Seq<char>)
    ensures
        text::trim_end(s).is_prefix_of(s),
        text::trim_end(s).len() > 0 ==> !text::white_space(text::trim_end(s).last()),
    decreases s.len(),
{
    if s.len() > 0 && text::white_space(s.last()) {
        lemma_trim_end(s.drop_last());
    }
}

/// What is asked to be written is complete: the category, and the pattern of a
/// rule, are trimmed and not empty.
pub proof fn submissions_are_complete(a: tui::AppModel, key: Key)
    ensures
        match tui::asked(a, key) {
            Some(tui::SubmissionModel::AddRule { pattern, category }) => {
                &&& pattern.len() > 0 && text::trimmed(pattern) == pattern
                &&& category.len() > 0 && text::trimmed(category) == category
            },
            Some(tui::SubmissionModel::CategorizeOne { id, category }) => {
                category.len() > 0 && text::trimmed(category) == category
            },
            None => true,
        },
{
    if let tui::ModeModel::Category(m) = a.input_mode {
        lemma_trimmed(m.category_input);
        lemma_trimmed(m.pattern_input);
    }
}

/// Enter on complete input always goes through. Where it is meant for all, the
/// tables become what adding the rule as it was typed makes of them: every
/// matching transaction is on the category, and no other changes, the selected
/// one included. Otherwise the transaction that the window was opened on is
/// written. The window then closes.
pub proof fn complete_input_is_written(a: tui::AppModel, m: tui::ModalModel, t: ledger::Tables)
    requires
        a.input_mode == tui::ModeModel::Category(m),
        text::trimmed(m.category_input).len() > 0,
        m.apply_to_all ==> text::trimmed(m.pattern_input).len() > 0,
    ensures
        tui::asked(a, Key::Enter) matches Some(s) && {
            let after = tui::tables_after(t, s);
            let pattern = text::lowercase(text::trimmed(m.pattern_input));
            let category = text::trimmed(m.category_input);
            &&& tui::acceptable(s)
            &&& m.apply_to_all ==> {
                &&& after == categorize::rule_added(t, pattern, category)
                &&& forall|i: int|
                    0 <= i < t.transactions.len() ==> #[trigger] after.transactions[i] == (
                    if categorize::pattern_matches(t.transactions[i].description, pattern) {
                        ledger::recategorized(t.transactions[i], category)
                    } else {
                        t.transactions[i]
                    })
            }
            &&& !m.apply_to_all ==> after == categorize::categorized_by_id(
                t,
                m.target_txn_id,
                category,
            )
        },
        tui::submitted(tui::pressed(a, Key::Enter), None) == (tui::AppModel {
            input_mode: tui::ModeModel::Normal,
            ..a
        }),
{
    lemma_trimmed(m.category_input);
    lemma_trimmed(m.pattern_input);
}

// --- Selection -------------------------------------------------------------

/// After a reload the user is on the same transaction, if it is still visible.
pub proof fn reload_keeps_the_selected_transaction(
    a: tui::AppModel,
    transactions: Seq<db::ListedModel>,
    categories: Seq<db::SummaryModel>,
    category_list: Seq<Seq<char>>,
    id: int,
)
    requires
        tui::sound(a),
        tui::selected_id(a) == Some(id),
    ensures
        ({
            let b = tui::reloaded(a, transactions, categories, category_list);
            tui::visible_ids(b).contains(id) ==> tui::selected_id(b) == Some(id)
        }),
{
    let b = tui::reloaded(a, transactions, categories, category_list);
    tui::lemma_first_position(tui::visible_ids(b), id);
    let fresh = tui::recomputed(
        tui::AppModel { transactions, categories, category_list, ..a },
    );
    assert(tui::visible_ids(b) =~= tui::visible_ids(fresh));
}

/// After a reload in which the selected transaction dropped out of the visible
/// ones, the first of these is selected.
pub proof fn reload_falls_back_to_the_top(
    a: tui::AppModel,
    transactions: Seq<db::ListedModel>,
    categories: Seq<db::SummaryModel>,
    category_list: Seq<Seq<char>>,
    id: int,
)
    requires
        tui::sound(a),
        tui::selected_id(a) == Some(id),
    ensures
        ({
            let b = tui::reloaded(a, transactions, categories, category_list);
            !tui::visible_ids(b).contains(id) ==> b.txn_selected == tui::top_row(b.visible.len())
        }),
{
    let b = tui::reloaded(a, transactions, categories, category_list);
    tui::lemma_first_position(tui::visible_ids(b), id);
    let fresh = tui::recomputed(
        tui::AppModel { transactions, categories, category_list, ..a },
    );
    assert(tui::visible_ids(b) =~= tui::visible_ids(fresh));
}

/// However far the selection is moved, it stays in the table.
pub proof fn moves_stay_in_the_table(a: tui::AppModel, delta: int)
    requires
        tui::rows_on_screen(a) > 0,
    ensures
        tui::selection_on_screen(tui::moved(a, delta)) matches Some(row) && 0 <= row
            < tui::rows_on_screen(a),
        tui::rows_on_screen(tui::moved(a, delta)) == tui::rows_on_screen(a),
{
}

/// Moving back undoes a move that did not reach beyond the table.
pub proof fn moving_back_undoes(a: tui::AppModel, delta: int, row: int)
    requires
        tui::selection_on_screen(a) == Some(row),
        0 <= row < tui::rows_on_screen(a),
        0 <= row + delta < tui::rows_on_screen(a),
    ensures
        tui::moved(tui::moved(a, delta), -delta) == a,
{
}

// --- Texts -----------------------------------------------------------------

/// A text that is cut to some room fits in it.
pub proof fn shortened_text_fits(s: Seq<char>, max: nat)
    requires
        max > 0,
    ensures
        screen::shortened(s, max).len() <= max,
{
}

/// What is kept of a list comes from it.
proof fn lemma_kept_is_listed(s: Seq<Seq<char>>, p: spec_fn(Seq<char>) -> bool, i: int)
    requires
        0 <= i < s.filter(p).len(),
    ensures
        s.contains(s.filter(p)[i]),
        p(s.filter(p)[i]),
    decreases s.len(),
{
    reveal(Seq::filter);
    let init = s.drop_last();
    if i < init.filter(p).len() {
        lemma_kept_is_listed(init, p, i);
        let k = choose|k: int| 0 <= k < init.len() && init[k] == init.filter(p)[i];
        assert(s[k] == s.filter(p)[i]);
    } else {
        assert(s[s.len() - 1] == s.filter(p)[i]);
    }
}

/// At most five categories are suggested, each one of the list and holding the
/// input.
pub proof fn suggestions_hold_the_input(list: Seq<Seq<char>>, input: Seq<char>)
    ensures
        screen::suggested(list, input).len() <= 5,
        forall|i: int|
            0 <= i < screen::suggested(list, input).len() ==> {
                let c = #[trigger] screen::suggested(list, input)[i];
                &&& list.contains(c)
                &&& text::contains_text(text::lowercase(c), text::lowercase(input))
            },
{
    let holds = |c: Seq<char>| text::contains_text(text::lowercase(c), text::lowercase(input));
    let matching = screen::matching_categories(list, input);
    assert(matching == list.filter(holds));
    assert forall|i: int| 0 <= i < screen::suggested(list, input).len() implies ({
        let c = #[trigger] screen::suggested(list, input)[i];
        &&& list.contains(c)
        &&& text::contains_text(text::lowercase(c), text::lowercase(input))
    }) by {
        let c = screen::suggested(list, input)[i];
        assert(c == matching[i]);
        lemma_kept_is_listed(list, holds, i);
    }
}

/// Different amounts are written differently.
pub proof fn amounts_are_told_apart(a: int, b: int)
    requires
        screen::amount_label(a) == screen::amount_label(b),
    ensures
        a == b,
{
    reveal_strlit("-");
    reveal_strlit(" ");
    reveal_strlit("$");
    reveal_strlit(".");
    let x = screen::amount_label(a);
    let y = screen::amount_label(b);
    let m = screen::size(a);
    let n = screen::size(b);
    let dx = numeral::decimal((m / 100) as nat);
    let dy = numeral::decimal((n / 100) as nat);
    let cx = numeral::two_digits(m % 100);
    let cy = numeral::two_digits(n % 100);
    assert(x[0] == if a < 0 { '-' } else { ' ' });
    assert(y[0] == if b < 0 { '-' } else { ' ' });
    assert(x.len() == 2 + dx.len() + 1 + 2);
    assert(y.len() == 2 + dy.len() + 1 + 2);
    assert(dx =~= x.subrange(2, x.len() - 3));
    assert(dy =~= y.subrange(2, y.len() - 3));
    assert(cx =~= x.subrange(x.len() - 2, x.len() as int));
    assert(cy =~= y.subrange(y.len() - 2, y.len() as int));
    numeral::decimal_reads_back((m / 100) as nat);
    numeral::decimal_reads_back((n / 100) as nat);
    numeral::two_digits_read_back(m % 100);
    numeral::two_digits_read_back(n % 100);
}

// --- What is visible -------------------------------------------------------

/// A transaction is visible exactly where its lowercased description is some
/// text, then the lowercased filter, then some text.
pub proof fn visible_rows_hold_the_filter(a: tui::AppModel, i: int)
    requires
        0 <= i < a.transactions.len(),
    ensures
        tui::recomputed(a).visible.contains(i) <==> exists|x: Seq<char>, y: Seq<char>|
            text::lowercase(a.transactions[i].description) == #[trigger] (x + text::lowercase(
                a.filter,
            ) + y),
{
    let hay = text::lowercase(a.transactions[i].description);
    let needle = text::lowercase(a.filter);
    let v = tui::recomputed(a).visible;
    tui::passing_rows_are_the_matches(a.transactions, a.filter);
    if v.contains(i) {
        let k = choose|k: int| 0 <= k < v.len() && v[k] == i;
        assert(tui::passes(a.transactions[v[k]], a.filter));
        let (x, y) = text_laws::held_text_has_a_place(hay, needle);
        assert(hay == x + needle + y);
    }
    if exists|x: Seq<char>, y: Seq<char>| hay == #[trigger] (x + needle + y) {
        let (x, y) = choose|x: Seq<char>, y: Seq<char>| hay == #[trigger] (x + needle + y);
        text_laws::text_is_held_anywhere(x, needle, y);
        assert(tui::passes(a.transactions[i], a.filter));
    }
}

/// The visible rows are transactions, each once and in their order, and typing
/// a filter leaves the transactions and the filter themselves alone.
pub proof fn visible_rows_keep_their_order(a: tui::AppModel)
    ensures
        ({
            let b = tui::recomputed(a);
            let v = b.visible;
            &&& forall|k: int| 0 <= k < v.len() ==> 0 <= #[trigger] v[k] < a.transactions.len()
            &&& forall|k: int, l: int| 0 <= k < l < v.len() ==> #[trigger] v[k] < #[trigger] v[l]
            &&& same_but_filter(a, b)
            &&& b.filter == a.filter
            &&& b.input_mode == a.input_mode
        }),
{
    tui::passing_rows_are_the_matches(a.transactions, a.filter);
}

/// When the visible rows change, the selection stays where it is as long as
/// there is such a row, goes to the last row where there is not, and to the
/// first where there was none.
pub proof fn selection_follows_the_visible_rows(a: tui::AppModel, row: int)
    requires
        0 <= row,
    ensures
        ({
            let n = tui::recomputed(a).visible.len();
            let selected = tui::recomputed(a).txn_selected;
            &&& n == 0 ==> selected is None
            &&& n > 0 && a.txn_selected is None ==> selected == Some(0int)
            &&& a.txn_selected == Some(row) && row < n ==> selected == Some(row)
            &&& n > 0 && a.txn_selected == Some(row) && row >= n ==> selected == Some(n - 1)
        }),
{
}

/// The application starts on the transaction table with every transaction
/// visible, the first row of each table selected where there is one, and
/// nothing typed.
pub proof fn application_starts_at_the_top(
    transactions: Seq<db::ListedModel>,
    categories: Seq<db::SummaryModel>,
    category_list: Seq<Seq<char>>,
)
    ensures
        ({
            let a = tui::started(transactions, categories, category_list);
            &&& a.screen == Screen::Transactions
            &&& a.transactions == transactions
            &&& a.categories == categories
            &&& a.category_list == category_list
            &&& a.visible == Seq::new(transactions.len(), |i: int| i)
            &&& a.txn_selected == (if transactions.len() == 0 {
                None
            } else {
                Some(0int)
            })
            &&& a.cat_selected == (if categories.len() == 0 {
                None
            } else {
                Some(0int)
            })
            &&& a.filter.len() == 0
            &&& a.input_mode is Normal
            &&& !a.should_quit
        }),
{
    empty_filter_shows_everything(transactions);
}

/// A reload takes over the new data and leaves the screen, the filter, what is
/// typed and the selection in the category table.
pub proof fn reload_takes_the_new_data(
    a: tui::AppModel,
    transactions: Seq<db::ListedModel>,
    categories: Seq<db::SummaryModel>,
    category_list: Seq<Seq<char>>,
)
    ensures
        ({
            let b = tui::reloaded(a, transactions, categories, category_list);
            &&& b.transactions == transactions
            &&& b.categories == categories
            &&& b.category_list == category_list
            &&& b.visible == tui::recomputed(tui::AppModel { transactions, ..a }).visible
            &&& b.screen == a.screen
            &&& b.filter == a.filter
            &&& b.input_mode == a.input_mode
            &&& b.cat_selected == a.cat_selected
            &&& b.should_quit == a.should_quit
            &&& a.txn_selected is None ==> b.txn_selected == (if b.visible.len() == 0 {
                None
            } else {
                Some(0int)
            })
        }),
{
}

/// The selected transaction is the one that the selected visible row stands for.
pub proof fn selected_transaction_is_that_of_the_row(a: tui::AppModel, row: int)
    requires
        a.txn_selected == Some(row),
        0 <= row < a.visible.len(),
    ensures
        tui::selected_row(a) == Some(a.transactions[a.visible[row]]),
        tui::selected_id(a) == Some(a.transactions[a.visible[row]].id),
{
}

// --- What the keys do ------------------------------------------------------

/// Where a key takes the selection from a row of a table of `n` rows: `j` and
/// Down one row on, `k` and Up one row back, the page keys twenty rows, each as
/// far as the table goes; `g` and Home to the first row, `G` and End to the
/// last.
pub open spec fn goes_to(key: Key, row: int, n: int, to: int) -> bool {
    &&& key == Key::Down || key == Key::Char('j') ==> (row + 1 < n ==> to == row + 1) && (row + 1
        >= n ==> to == n - 1)
    &&& key == Key::Up || key == Key::Char('k') ==> (1 <= row <= n ==> to == row - 1) && (row < 1
        ==> to == 0) && (row > n ==> to == n - 1)
    &&& key == Key::PageDown ==> (row + 20 < n ==> to == row + 20) && (row + 20 >= n ==> to == n
        - 1)
    &&& key == Key::PageUp ==> (20 <= row < n + 20 ==> to == row - 20) && (row < 20 ==> to == 0)
        && (row >= n + 20 ==> to == n - 1)
    &&& key == Key::Home || key == Key::Char('g') ==> to == 0
    &&& key == Key::End || key == Key::Char('G') ==> to == n - 1
}

/// The key moves the selection.
pub open spec fn moves(key: Key) -> bool {
    ||| key == Key::Down || key == Key::Char('j') || key == Key::Up || key == Key::Char('k')
    ||| key == Key::PageDown || key == Key::PageUp
    ||| key == Key::Home || key == Key::Char('g') || key == Key::End || key == Key::Char('G')
}

/// In the transaction table, the keys that move the selection move it by the
/// visible rows, and change nothing else.
pub proof fn keys_move_through_the_transactions(a: tui::AppModel, key: Key, row: int)
    requires
        a.input_mode is Normal,
        a.screen == Screen::Transactions,
        moves(key),
        a.txn_selected == Some(row),
        0 <= row < a.visible.len(),
    ensures
        tui::pressed(a, key).txn_selected matches Some(to) && goes_to(
            key,
            row,
            a.visible.len() as int,
            to,
        ),
        tui::pressed(a, key) == (tui::AppModel {
            txn_selected: tui::pressed(a, key).txn_selected,
            ..a
        }),
{
}

/// In the category table, the same keys move the selection there. A table
/// without a selection is taken to be on its first row, and a selection past the
/// last row comes back into the table.
pub proof fn keys_move_through_the_categories(a: tui::AppModel, key: Key, row: int)
    requires
        a.input_mode is Normal,
        a.screen == Screen::Categories,
        moves(key),
        a.cat_selected == Some(row) || (a.cat_selected is None && row == 0),
        0 <= row,
        a.categories.len() > 0,
    ensures
        tui::pressed(a, key).cat_selected matches Some(to) && goes_to(
            key,
            row,
            a.categories.len() as int,
            to,
        ),
        tui::pressed(a, key) == (tui::AppModel {
            cat_selected: tui::pressed(a, key).cat_selected,
            ..a
        }),
{
}

/// In an empty table the keys that move the selection do nothing.
pub proof fn keys_do_nothing_in_an_empty_table(a: tui::AppModel, key: Key)
    requires
        a.input_mode is Normal,
        moves(key),
        a.screen == Screen::Transactions ==> a.visible.len() == 0,
        a.screen == Screen::Categories ==> a.categories.len() == 0,
    ensures
        tui::pressed(a, key) == a,
{
}

/// A move goes by as many rows as it says, and as far as the table goes where
/// that is less. It changes the selection of the table on screen alone.
pub proof fn moves_go_as_far_as_the_table(a: tui::AppModel, delta: int, row: int)
    requires
        0 <= row,
    ensures
        a.screen == Screen::Transactions && a.txn_selected == Some(row) && a.visible.len() > 0 ==> {
            let n = a.visible.len();
            tui::moved(a, delta) == (tui::AppModel {
                txn_selected: Some(
                    if row + delta < 0 {
                        0
                    } else if row + delta >= n {
                        n - 1
                    } else {
                        row + delta
                    },
                ),
                ..a
            })
        },
        a.screen == Screen::Categories && a.cat_selected == Some(row) && a.categories.len() > 0
            ==> {
            let n = a.categories.len();
            tui::moved(a, delta) == (tui::AppModel {
                cat_selected: Some(
                    if row + delta < 0 {
                        0
                    } else if row + delta >= n {
                        n - 1
                    } else {
                        row + delta
                    },
                ),
                ..a
            })
        },
{
}

/// While nothing is being typed, `q` and Esc quit and nothing else does, Tab and
/// BackTab switch the table, and every key without a meaning does nothing.
pub proof fn normal_keys_have_their_meanings(a: tui::AppModel, key: Key)
    requires
        a.input_mode is Normal,
    ensures
        key == Key::Esc || key == Key::Char('q') ==> tui::pressed(a, key) == (tui::AppModel {
            should_quit: true,
            ..a
        }),
        key == Key::Tab || key == Key::BackTab ==> tui::pressed(a, key) == (tui::AppModel {
            screen: if a.screen == Screen::Transactions {
                Screen::Categories
            } else {
                Screen::Transactions
            },
            ..a
        }),
        !moves(key) && key != Key::Esc && key != Key::Char('q') && key != Key::Tab && key
            != Key::BackTab && key != Key::Char('/') && key != Key::Char('c') ==> tui::pressed(
            a,
            key,
        ) == a,
        a.screen == Screen::Categories && (key == Key::Char('/') || key == Key::Char('c'))
            ==> tui::pressed(a, key) == a,
        tui::asked(a, key) is None,
{
}

/// `/` starts typing the filter and keeps all else, the filter included.
pub proof fn slash_starts_the_filter(a: tui::AppModel)
    requires
        a.input_mode is Normal,
        a.screen == Screen::Transactions,
    ensures
        tui::pressed(a, Key::Char('/')) == (tui::AppModel {
            input_mode: tui::ModeModel::Filter { prior: a.filter },
            ..a
        }),
{
}

/// While the filter is being typed, a character goes to its end, Backspace
/// takes the last one off, and the visible rows follow. Taking a character off
/// right after typing it restores the filter and the rows. Other keys, but for
/// Esc and Enter, do nothing.
pub proof fn filter_takes_what_is_typed(a: tui::AppModel, c: char, key: Key)
    requires
        tui::sound(a),
        a.input_mode is Filter,
    ensures
        ({
            let b = tui::pressed(a, Key::Char(c));
            let back = tui::pressed(b, Key::Backspace);
            &&& b.filter == a.filter + seq![c]
            &&& b.visible == tui::recomputed(b).visible
            &&& b.input_mode == a.input_mode
            &&& back.filter == a.filter
            &&& back.visible == a.visible
            &&& back.input_mode == a.input_mode
        }),
        a.filter.len() == 0 ==> tui::pressed(a, Key::Backspace).filter == a.filter,
        a.filter.len() > 0 ==> tui::pressed(a, Key::Backspace).filter + seq![a.filter.last()]
            == a.filter,
        key !is Char && key != Key::Backspace && key != Key::Esc && key != Key::Enter
            ==> tui::pressed(a, key) == a,
        tui::asked(a, key) is None,
{
    assert(a.filter.push(c) =~= a.filter + seq![c]);
    assert(a.filter.push(c).drop_last() =~= a.filter);
    if a.filter.len() > 0 {
        assert(a.filter.drop_last() + seq![a.filter.last()] =~= a.filter);
    }
}

/// `c` opens an empty window on the selected transaction: no category typed, not
/// meant for all, the pattern that its description suggests, the focus on the
/// category and no error.
pub proof fn window_opens_empty(a: tui::AppModel, row: int)
    requires
        a.input_mode is Normal,
        a.screen == Screen::Transactions,
        a.txn_selected == Some(row),
        0 <= row < a.visible.len(),
    ensures
        ({
            let t = a.transactions[a.visible[row]];
            let b = tui::pressed(a, Key::Char('c'));
            &&& b == (tui::AppModel { input_mode: b.input_mode, ..a })
            &&& b.input_mode matches tui::ModeModel::Category(m) && {
                &&& m.target_txn_id == t.id
                &&& m.category_input.len() == 0
                &&& !m.apply_to_all
                &&& m.pattern_input == tui::derived_pattern(t.description)
                &&& m.focus == ModalFocus::Category
                &&& m.error is None
            }
        }),
{
}

/// What is typed into the window goes to the end of the field that has the
/// focus, and to no other; Backspace takes the last character off that field.
/// Either takes the error away. Space on the checkbox flips it and leaves all
/// else.
pub proof fn window_takes_what_is_typed(m: tui::ModalModel, c: char)
    ensures
        m.focus == ModalFocus::Category ==> {
            &&& tui::modal_key(m, Key::Char(c)) == (tui::ModalModel {
                category_input: m.category_input + seq![c],
                error: None,
                ..m
            })
            &&& m.category_input.len() > 0 ==> tui::modal_key(m, Key::Backspace)
                == (tui::ModalModel {
                category_input: m.category_input.subrange(0, m.category_input.len() - 1),
                error: None,
                ..m
            })
            &&& m.category_input.len() == 0 ==> tui::modal_key(m, Key::Backspace)
                == (tui::ModalModel { error: None, ..m })
        },
        m.focus == ModalFocus::Pattern ==> {
            &&& tui::modal_key(m, Key::Char(c)) == (tui::ModalModel {
                pattern_input: m.pattern_input + seq![c],
                error: None,
                ..m
            })
            &&& m.pattern_input.len() > 0 ==> tui::modal_key(m, Key::Backspace)
                == (tui::ModalModel {
                pattern_input: m.pattern_input.subrange(0, m.pattern_input.len() - 1),
                error: None,
                ..m
            })
            &&& m.pattern_input.len() == 0 ==> tui::modal_key(m, Key::Backspace)
                == (tui::ModalModel { error: None, ..m })
        },
        m.focus == ModalFocus::Toggle ==> {
            &&& tui::modal_key(m, Key::Char(' ')) == (tui::ModalModel {
                apply_to_all: !m.apply_to_all,
                ..m
            })
            &&& c != ' ' ==> tui::modal_key(m, Key::Char(c)) == (tui::ModalModel {
                error: None,
                ..m
            })
            &&& tui::modal_key(m, Key::Backspace) == (tui::ModalModel { error: None, ..m })
        },
{
    assert(m.category_input.push(c) =~= m.category_input + seq![c]);
    assert(m.pattern_input.push(c) =~= m.pattern_input + seq![c]);
    if m.category_input.len() > 0 {
        assert(m.category_input.drop_last() =~= m.category_input.subrange(
            0,
            m.category_input.len() - 1,
        ));
    }
    if m.pattern_input.len() > 0 {
        assert(m.pattern_input.drop_last() =~= m.pattern_input.subrange(
            0,
            m.pattern_input.len() - 1,
        ));
    }
}

/// Tab goes from the category to the checkbox, from there to the pattern where
/// it is shown, and then back to the category; BackTab goes the other way. Both
/// change the focus alone. The keys that edit nothing only take the error away.
pub proof fn window_focus_goes_down_the_fields(m: tui::ModalModel, key: Key)
    ensures
        m.focus == ModalFocus::Category ==> tui::modal_key(m, Key::Tab) == (tui::ModalModel {
            focus: ModalFocus::Toggle,
            ..m
        }),
        m.focus == ModalFocus::Toggle ==> tui::modal_key(m, Key::Tab) == (tui::ModalModel {
            focus: if m.apply_to_all {
                ModalFocus::Pattern
            } else {
                ModalFocus::Category
            },
            ..m
        }),
        m.focus == ModalFocus::Pattern ==> tui::modal_key(m, Key::Tab) == (tui::ModalModel {
            focus: ModalFocus::Category,
            ..m
        }),
        tui::focus_is_shown(m) ==> tui::modal_key(tui::modal_key(m, Key::Tab), Key::BackTab) == m,
        tui::focus_is_shown(m) ==> tui::modal_key(tui::modal_key(m, Key::BackTab), Key::Tab) == m,
        key !is Char && key != Key::Backspace && key != Key::Enter && key != Key::Tab && key
            != Key::BackTab ==> tui::modal_key(m, key) == (tui::ModalModel { error: None, ..m }),
{
}

/// The window passes every key but Esc to its fields; Esc closes it and changes
/// nothing else.
pub proof fn window_keys_reach_its_fields(a: tui::AppModel, m: tui::ModalModel, key: Key)
    requires
        a.input_mode == tui::ModeModel::Category(m),
    ensures
        tui::pressed(a, Key::Esc) == (tui::AppModel { input_mode: tui::ModeModel::Normal, ..a }),
        key != Key::Esc ==> tui::pressed(a, key) == (tui::AppModel {
            input_mode: tui::ModeModel::Category(tui::modal_key(m, key)),
            ..a
        }),
        key != Key::Enter ==> tui::asked(a, key) is None,
{
}

/// Enter on incomplete input asks for nothing and changes nothing but the error:
/// a blank category, or a blank pattern where all are meant, is what it names.
pub proof fn incomplete_input_is_refused(a: tui::AppModel, m: tui::ModalModel)
    requires
        a.input_mode == tui::ModeModel::Category(m),
        text::all_white(m.category_input) || (m.apply_to_all && text::all_white(m.pattern_input)),
    ensures
        tui::asked(a, Key::Enter) is None,
        tui::pressed(a, Key::Enter) == (tui::AppModel {
            input_mode: tui::ModeModel::Category(
                tui::ModalModel {
                    error: Some(
                        if text::all_white(m.category_input) {
                            "Category cannot be empty"@
                        } else {
                            "Pattern required when 'Apply to all' is on"@
                        },
                    ),
                    ..m
                },
            ),
            ..a
        }),
{
    text_laws::trim_empties_white_space_only(m.category_input);
    text_laws::trim_empties_white_space_only(m.pattern_input);
}

/// What is asked for can be written exactly where neither its category nor its
/// pattern is blank.
pub proof fn blank_submissions_cannot_be_written(
    pattern: Seq<char>,
    category: Seq<char>,
    id: int,
)
    ensures
        tui::acceptable(tui::SubmissionModel::AddRule { pattern, category })
            <==> !text::all_white(pattern) && !text::all_white(category),
        tui::acceptable(tui::SubmissionModel::CategorizeOne { id, category })
            <==> !text::all_white(category),
{
    text_laws::trim_empties_white_space_only(pattern);
    text_laws::trim_empties_white_space_only(category);
}

// --- The suggested pattern -------------------------------------------------

/// The words that are kept for the suggested pattern are those of the
/// description that have no `*` and some character other than a digit, `-` or
/// `#`, in their order.
pub proof fn suggestion_keeps_the_words_that_tell(description: Seq<char>)
    ensures
        tui::telling_words(description) == text::words(description).filter(
            |w: Seq<char>|
                (forall|i: int| 0 <= i < w.len() ==> #[trigger] w[i] != '*') && (exists|i: int|
                    0 <= i < w.len() && !('0' <= (#[trigger] w[i]) <= '9') && w[i] != '-' && w[i]
                        != '#'),
        ),
{
    let p = |w: Seq<char>|
        (forall|i: int| 0 <= i < w.len() ==> #[trigger] w[i] != '*') && (exists|i: int|
            0 <= i < w.len() && !('0' <= (#[trigger] w[i]) <= '9') && w[i] != '-' && w[i] != '#');
    let q = |w: Seq<char>| tui::telling(w);
    assert forall|w: Seq<char>| #[trigger] p(w) == q(w) by {
        if q(w) {
            let i = choose|i: int| 0 <= i < w.len() && !tui::id_char(#[trigger] w[i]);
            assert(!('0' <= w[i] <= '9') && w[i] != '-' && w[i] != '#');
            assert forall|j: int| 0 <= j < w.len() implies #[trigger] w[j] != '*' by {
                assert(w.contains(w[j]));
            }
        }
        if p(w) {
            let i = choose|i: int|
                0 <= i < w.len() && !('0' <= (#[trigger] w[i]) <= '9') && w[i] != '-' && w[i]
                    != '#';
            assert(!tui::id_char(w[i]));
        }
    }
    assert(p =~= q);
}

/// A word of the description is kept for the suggested pattern exactly where it
/// has no `*` and is not made of digits, `-` and `#` alone.
pub proof fn word_is_kept_where_it_tells(description: Seq<char>, k: int)
    requires
        0 <= k < text::words(description).len(),
    ensures
        ({
            let w = text::words(description)[k];
            tui::telling_words(description).contains(w) <==> (forall|i: int|
                0 <= i < w.len() ==> #[trigger] w[i] != '*') && !(forall|i: int|
                0 <= i < w.len() ==> '0' <= (#[trigger] w[i]) <= '9' || w[i] == '-' || w[i] == '#')
        }),
{
    suggestion_keeps_the_words_that_tell(description);
    let ws = text::words(description);
    let w = ws[k];
    let p = |w: Seq<char>|
        (forall|i: int| 0 <= i < w.len() ==> #[trigger] w[i] != '*') && (exists|i: int|
            0 <= i < w.len() && !('0' <= (#[trigger] w[i]) <= '9') && w[i] != '-' && w[i] != '#');
    let kept = ws.filter(p);
    assert(tui::telling_words(description) == kept);
    if kept.contains(w) {
        let j = choose|j: int| 0 <= j < kept.len() && kept[j] == w;
        lemma_kept_is_listed(ws, p, j);
        assert(p(w));
    }
    if p(w) {
        broadcast use vstd::seq_lib::group_filter_ensures;

        assert(kept.contains(ws[k]));
    }
}

/// The suggested pattern is the lowercased line of the first three words that
/// are kept, with single spaces between them. Where none is kept, it is the
/// first twenty characters of the lowercased description.
pub proof fn suggestion_is_the_first_three_words(description: Seq<char>) -> (line: Seq<char>)
    ensures
        ({
            let kept = tui::telling_words(description);
            let pattern = tui::derived_pattern(description);
            &&& kept.len() > 0 ==> {
                &&& pattern == text::lowercase(line)
                &&& laws::singly_spaced(line)
                &&& kept.len() <= 3 ==> text::words(line) == kept
                &&& kept.len() > 3 ==> text::words(line) == kept.subrange(0, 3)
            }
            &&& kept.len() == 0 ==> {
                &&& text::lowercase(description) == pattern + line
                &&& pattern.len() <= 20
                &&& pattern.len() < 20 ==> line.len() == 0
            }
        }),
{
    let ws = text::words(description);
    let q = |w: Seq<char>| tui::telling(w);
    let kept = tui::telling_words(description);
    assert(kept == ws.filter(q));
    if kept.len() == 0 {
        text_laws::first_chars_begin_the_text(text::lowercase(description), 20)
    } else {
        let first = if kept.len() <= 3 {
            kept
        } else {
            kept.take(3)
        };
        assert(kept.len() > 3 ==> first =~= kept.subrange(0, 3));
        text::lemma_words(description);
        assert forall|k: int| 0 <= k < first.len() implies text::is_word(#[trigger] first[k]) by {
            assert(first[k] == kept[k]);
            lemma_kept_is_listed(ws, q, k);
            let j = choose|j: int| 0 <= j < ws.len() && ws[j] == kept[k];
            assert(text::is_word(ws[j]));
        }
        laws::joined_words_are_its_words(first);
        laws::lemma_joined_is_singly_spaced(first);
        text::joined(first)
    }
}

} // verus!
