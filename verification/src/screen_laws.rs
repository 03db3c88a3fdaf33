//! What the terminal shows, stated on the data that it is about.

use crate::amount;
use crate::db;
use crate::numeral;
use crate::screen;
use crate::text;
use crate::text_laws;
use crate::tui;
use crate::tui::ModalFocus;
use crate::tui_laws;
use vstd::prelude::*;

verus! {

// --- Amounts ---------------------------------------------------------------

/// The text shows the amount: without its dollar sign it is read back to the
/// exact cent, up to ten trillion dollars in either direction, it begins with a
/// minus sign exactly where the amount is negative, and no other amount is
/// shown like it.
pub open spec fn shows_amount(cell: Seq<char>, cents: int) -> bool {
    &&& -1_000_000_000_000_000 <= cents <= 1_000_000_000_000_000 ==> forall|rounded: Option<i64>|
        #[trigger] amount::cents(amount::without_dollar_sign(cell), rounded) == Some(cents)
    &&& cell.len() > 1
    &&& cell[1] == '$'
    &&& cell[0] == '-' <==> cents < 0
    &&& forall|other: int| #[trigger] screen::amount_label(other) == cell ==> other == cents
}

/// An amount is shown as what it is.
pub proof fn amounts_show_what_they_are(cents: int)
    ensures
        shows_amount(screen::amount_label(cents), cents),
{
    reveal_strlit("-");
    reveal_strlit(" ");
    reveal_strlit("$");
    let cell = screen::amount_label(cents);
    if -1_000_000_000_000_000 <= cents <= 1_000_000_000_000_000 {
        assert forall|rounded: Option<i64>| #[trigger]
            amount::cents(amount::without_dollar_sign(cell), rounded) == Some(cents) by {
            amount::shown_amount_is_read_exactly(cents, rounded);
        }
    }
    assert forall|other: int| #[trigger] screen::amount_label(other) == cell implies other
        == cents by {
        tui_laws::amounts_are_told_apart(other, cents);
    }
}

// --- Tables ----------------------------------------------------------------

/// A text moved to the right end of a field is spaces and then the text, and
/// fills the field.
pub proof fn right_aligned_text_follows_spaces(s: Seq<char>, width: nat) -> (spaces: Seq<char>)
    ensures
        screen::right_aligned(s, width) == spaces + s,
        forall|i: int| 0 <= i < spaces.len() ==> #[trigger] spaces[i] == ' ',
        s.len() >= width ==> spaces.len() == 0,
        s.len() < width ==> spaces.len() + s.len() == width,
    decreases width - s.len(),
{
    if s.len() >= width {
        let spaces = Seq::<char>::empty();
        assert(spaces + s =~= s);
        spaces
    } else {
        let a = right_aligned_text_follows_spaces(seq![' '] + s, width);
        let spaces = a.push(' ');
        assert(a + (seq![' '] + s) =~= spaces + s);
        spaces
    }
}

/// The row of a category has its name, its count behind spaces, and its net
/// amount with the sign that it has.
pub proof fn category_row_shows_the_summary(row: db::SummaryModel)
    ensures
        ({
            let cells = screen::category_row(row);
            &&& cells.len() == 3
            &&& cells[0] == row.category
            &&& text::trimmed(cells[1]) == numeral::signed_decimal(row.count)
            &&& cells[1].len() >= 5
            &&& shows_amount(cells[2], row.total_cents)
        }),
{
    let n = numeral::signed_decimal(row.count);
    let spaces = right_aligned_text_follows_spaces(n, 5);
    let empty = Seq::<char>::empty();
    lemma_signed_decimal_ends(row.count);
    assert(text::all_white(spaces));
    text_laws::trim_finds_what_is_between(spaces, n, empty);
    assert(spaces + n + empty =~= spaces + n);
    amounts_show_what_they_are(row.total_cents);
}

/// A number's text neither begins nor ends with white space.
proof fn lemma_signed_decimal_ends(n: int)
    ensures
        text_laws::bare_ends(numeral::signed_decimal(n)),
{
    let m = if n < 0 {
        -n
    } else {
        n
    };
    let d = numeral::decimal(m as nat);
    numeral::decimal_reads_back(m as nat);
    assert(numeral::is_digit(d[0]));
    assert(numeral::is_digit(d[d.len() - 1]));
    let s = numeral::signed_decimal(n);
    assert(s[s.len() - 1] == d[d.len() - 1]);
}

/// Summaries with different names, counts or totals have different rows.
pub proof fn category_rows_tell_summaries_apart(a: db::SummaryModel, b: db::SummaryModel)
    requires
        screen::category_row(a) == screen::category_row(b),
    ensures
        a == b,
{
    category_row_shows_the_summary(a);
    category_row_shows_the_summary(b);
    let (x, y) = (screen::category_row(a), screen::category_row(b));
    numeral::signed_decimal_injective(a.count, b.count);
    assert(x[0] == y[0] && x[2] == y[2]);
    amounts_show_what_they_are(b.total_cents);
    assert(screen::amount_label(b.total_cents) == y[2]);
}

/// The row of a transaction has its date, its source, its description as far as
/// there is room, its amount with the sign that it has, and its category or a
/// dash. A description of more than 45 characters is cut after 44, and an
/// ellipsis follows.
pub proof fn transaction_row_shows_the_transaction(row: db::ListedModel)
    ensures
        ({
            let cells = screen::transaction_row(row);
            let d = row.description;
            &&& cells.len() == 5
            &&& cells[0] == row.txn_date
            &&& cells[1] == row.source
            &&& d.len() <= 45 ==> cells[2] == d
            &&& d.len() > 45 ==> cells[2] == d.subrange(0, 44) + seq!['…']
            &&& shows_amount(cells[3], row.amount_cents)
            &&& match row.category {
                Some(c) => cells[4] == c,
                None => cells[4] == "—"@,
            }
        }),
{
    amounts_show_what_they_are(row.amount_cents);
    cut_text_ends_in_an_ellipsis(row.description, 45);
}

/// A text that is cut keeps its beginning, fills the room and ends in an
/// ellipsis; one that fits is left alone.
pub proof fn cut_text_ends_in_an_ellipsis(s: Seq<char>, max: nat)
    ensures
        s.len() <= max ==> screen::shortened(s, max) == s,
        s.len() > max > 0 ==> screen::shortened(s, max) == s.subrange(0, max - 1) + seq!['…'],
        s.len() > max == 0 ==> screen::shortened(s, max) == seq!['…'],
{
    if s.len() > max {
        let cut = screen::shortened(s, max);
        if max > 0 {
            let rest = text_laws::first_chars_begin_the_text(s, (max - 1) as nat);
            assert(cut =~= s.subrange(0, max - 1) + seq!['…']);
        } else {
            let rest = text_laws::first_chars_begin_the_text(s, 0);
            assert(cut =~= seq!['…']);
        }
    }
}

// --- Titles and the status line --------------------------------------------

/// The text is a number in decimal digits.
pub open spec fn states_number(d: Seq<char>, n: nat) -> bool {
    d.len() > 0 && numeral::all_digits(d) && numeral::digits_value(d) == n
}

/// The title of the transaction table states how many there are, and with a
/// filter how many of them are visible, and the filter itself.
pub proof fn transaction_title_states_the_counts(a: tui::AppModel) -> (r: (Seq<char>, Seq<char>))
    ensures
        states_number(r.0, a.visible.len()),
        states_number(r.1, a.transactions.len()),
        a.filter.len() == 0 ==> screen::transactions_heading(a) == " Transactions ("@ + r.1
            + ") "@,
        a.filter.len() > 0 ==> screen::transactions_heading(a) == " Transactions ("@ + r.0
            + " of "@ + r.1 + ", filter: \""@ + a.filter + "\") "@,
{
    numeral::decimal_reads_back(a.visible.len());
    numeral::decimal_reads_back(a.transactions.len());
    (numeral::decimal(a.visible.len()), numeral::decimal(a.transactions.len()))
}

/// While the filter is being typed the status line shows it, and otherwise it
/// does not depend on what is typed.
pub proof fn status_line_shows_the_filter(a: tui::AppModel, b: tui::AppModel)
    ensures
        a.input_mode is Filter ==> screen::status(a) == "Filter: "@ + a.filter
            + "█  (Enter commits · Esc cancels)"@,
        a.input_mode !is Filter && b.input_mode !is Filter ==> screen::status(a)
            == screen::status(b),
{
}

// --- Suggestions -----------------------------------------------------------

/// The suggestions are the first five, or all where there are fewer, of the
/// categories in the list whose lowercased name is some text, then the
/// lowercased input, then some text; in the order of the list.
pub proof fn suggestions_are_the_first_that_hold_the_input(
    list: Seq<Seq<char>>,
    input: Seq<char>,
)
    ensures
        ({
            let held = list.filter(
                |c: Seq<char>|
                    exists|x: Seq<char>, y: Seq<char>|
                        text::lowercase(c) == #[trigger] (x + text::lowercase(input) + y),
            );
            screen::suggested(list, input) == if held.len() <= 5 {
                held
            } else {
                held.take(5)
            }
        }),
{
    let needle = text::lowercase(input);
    let p = |c: Seq<char>|
        exists|x: Seq<char>, y: Seq<char>|
            text::lowercase(c) == #[trigger] (x + text::lowercase(input) + y);
    let q = |c: Seq<char>| text::contains_text(text::lowercase(c), text::lowercase(input));
    assert forall|c: Seq<char>| #[trigger] p(c) == q(c) by {
        let hay = text::lowercase(c);
        if q(c) {
            let (x, y) = text_laws::held_text_has_a_place(hay, needle);
            assert(hay == x + needle + y);
        }
        if p(c) {
            let (x, y) = choose|x: Seq<char>, y: Seq<char>| hay == #[trigger] (x + needle + y);
            text_laws::text_is_held_anywhere(x, needle, y);
        }
    }
    assert(p =~= q);
    assert(screen::matching_categories(list, input) == list.filter(q));
}

// --- Tones -----------------------------------------------------------------

/// An amount is in the tone of money out exactly where it is shown with a minus
/// sign, and otherwise in that of money in, in both tables.
pub proof fn amounts_are_toned_by_their_sign(
    cents: int,
    row: db::ListedModel,
    summary: db::SummaryModel,
)
    ensures
        screen::tone_of_amount(cents) == (if screen::amount_label(cents)[0] == '-' {
            screen::Tone::Out
        } else {
            screen::Tone::In
        }),
        cents < 0 <==> screen::tone_of_amount(cents) == screen::Tone::Out,
        screen::transaction_row_tones(row).len() == screen::transaction_row(row).len(),
        screen::transaction_row_tones(row)[3] == (if screen::transaction_row(row)[3][0] == '-' {
            screen::Tone::Out
        } else {
            screen::Tone::In
        }),
        screen::category_row_tones(summary).len() == screen::category_row(summary).len(),
        screen::category_row_tones(summary)[2] == (if screen::category_row(summary)[2][0] == '-' {
            screen::Tone::Out
        } else {
            screen::Tone::In
        }),
{
    amounts_show_what_they_are(cents);
    transaction_row_shows_the_transaction(row);
    category_row_shows_the_summary(summary);
}

/// Besides the amounts, the source of a transaction is dimmed, and so is the
/// dash of one without a category; all other cells are plain.
pub proof fn missing_categories_are_dimmed(row: db::ListedModel, summary: db::SummaryModel)
    ensures
        ({
            let tones = screen::transaction_row_tones(row);
            &&& tones[0] == screen::Tone::Plain
            &&& tones[1] == screen::Tone::Dim
            &&& tones[2] == screen::Tone::Plain
            &&& row.category is None ==> tones[4] == screen::Tone::Dim
            &&& row.category is Some ==> tones[4] == screen::Tone::Plain
        }),
        screen::category_row_tones(summary)[0] == screen::Tone::Plain,
        screen::category_row_tones(summary)[1] == screen::Tone::Plain,
{
}

/// The status line stands out exactly while the filter is being typed, a field
/// of the window exactly while it has the focus, and its last line exactly
/// where it shows an error.
pub proof fn active_texts_stand_out(a: tui::AppModel, m: tui::ModalModel, field: ModalFocus)
    ensures
        a.input_mode is Filter ==> screen::tone_of_status(a) == screen::Tone::Active,
        a.input_mode !is Filter ==> screen::tone_of_status(a) == screen::Tone::Dim,
        m.focus == field ==> screen::tone_of_field(m, field) == screen::Tone::Active,
        m.focus != field ==> screen::tone_of_field(m, field) == screen::Tone::Plain,
        m.error is Some ==> screen::tone_of_hint(m) == screen::Tone::Alert,
        m.error is None ==> screen::tone_of_hint(m) == screen::Tone::Dim,
{
}

// --- The category modal ----------------------------------------------------

/// The window shows what was typed into each field, with the cursor behind the
/// one that has the focus and behind no other. The pattern is there exactly
/// where the checkbox is ticked.
pub proof fn window_shows_what_was_typed(m: tui::ModalModel)
    ensures
        m.focus == ModalFocus::Category ==> screen::category_text(m) == "Category: "@
            + m.category_input + "█"@,
        m.focus != ModalFocus::Category ==> screen::category_text(m) == "Category: "@
            + m.category_input,
        m.apply_to_all ==> screen::toggle_text(m)
            == "["@ + "x"@ + "] Apply to all matching (creates rule)"@,
        !m.apply_to_all ==> screen::toggle_text(m)
            == "["@ + " "@ + "] Apply to all matching (creates rule)"@,
        screen::pattern_text(m) is Some <==> m.apply_to_all,
        m.apply_to_all && m.focus == ModalFocus::Pattern ==> screen::pattern_text(m) == Some(
            "Pattern:  "@ + m.pattern_input + "█"@,
        ),
        m.apply_to_all && m.focus != ModalFocus::Pattern ==> screen::pattern_text(m) == Some(
            "Pattern:  "@ + m.pattern_input,
        ),
        m.error matches Some(e) ==> screen::hint_text(m) == "Error: "@ + e,
{
    reveal_strlit("");
    assert("Category: "@ + m.category_input + ""@ =~= "Category: "@ + m.category_input);
    assert("Pattern:  "@ + m.pattern_input + ""@ =~= "Pattern:  "@ + m.pattern_input);
}

/// The last line of the window does not depend on what was typed where there is
/// no error.
pub proof fn hint_stays_the_same(m: tui::ModalModel, n: tui::ModalModel)
    requires
        m.error is None,
        n.error is None,
    ensures
        screen::hint_text(m) == screen::hint_text(n),
{
}

/// The title of the category table states how many categories there are.
pub proof fn category_title_states_the_count(a: tui::AppModel) -> (d: Seq<char>)
    ensures
        states_number(d, a.categories.len()),
        screen::categories_heading(a) == " Categories ("@ + d + ") "@,
{
    numeral::decimal_reads_back(a.categories.len());
    numeral::decimal(a.categories.len())
}

} // verus!
