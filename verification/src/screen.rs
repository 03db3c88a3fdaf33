//! The texts on the terminal and how they are set off: amounts, table cells,
//! titles and the lines of the category modal.

use crate::db;
use crate::db::{CategorySummary, TransactionRow};
use crate::numeral;
use crate::text;
use crate::tui;
use crate::tui::{App, CategoryModal, InputMode, ModalFocus, Screen};
use vstd::prelude::*;

verus! {

// --- Tones -----------------------------------------------------------------

/// How a text is set off.
#[derive(Debug, Clone, Copy, PartialEq, Eq, Structural)]
pub enum Tone {
    Plain,
    /// Of lesser weight.
    Dim,
    /// Money out.
    Out,
    /// Money in.
    In,
    /// Where the user is typing.
    Active,
    /// What went wrong.
    Alert,
}

/// The tone of an amount: negative is money out.
pub open spec fn tone_of_amount(cents: int) -> Tone {
    if cents < 0 {
        Tone::Out
    } else {
        Tone::In
    }
}

/// The tone of an amount.
pub fn amount_tone(cents: i64) -> (r: Tone)
    ensures
        r == tone_of_amount(cents as int),
{
    if cents < 0 {
        Tone::Out
    } else {
        Tone::In
    }
}

/// The tones of the cells of a row of the transaction table.
pub open spec fn transaction_row_tones(row: db::ListedModel) -> Seq<Tone> {
    seq![
        Tone::Plain,
        Tone::Dim,
        Tone::Plain,
        tone_of_amount(row.amount_cents),
        if row.category is None {
            Tone::Dim
        } else {
            Tone::Plain
        },
    ]
}

/// The tones of the cells of a row of the transaction table, in their order.
pub fn transaction_tones(row: &TransactionRow) -> (r: Vec<Tone>)
    ensures
        r@ == transaction_row_tones(row@),
{
    let mut tones: Vec<Tone> = Vec::new();
    tones.push(Tone::Plain);
    tones.push(Tone::Dim);
    tones.push(Tone::Plain);
    tones.push(amount_tone(row.amount_cents));
    tones.push(
        match row.category {
            None => Tone::Dim,
            Some(_) => Tone::Plain,
        },
    );
    tones
}

/// The tones of the cells of a row of the category table.
pub open spec fn category_row_tones(row: db::SummaryModel) -> Seq<Tone> {
    seq![Tone::Plain, Tone::Plain, tone_of_amount(row.total_cents)]
}

/// The tones of the cells of a row of the category table, in their order.
pub fn category_tones(row: &CategorySummary) -> (r: Vec<Tone>)
    ensures
        r@ == category_row_tones(row@),
{
    let mut tones: Vec<Tone> = Vec::new();
    tones.push(Tone::Plain);
    tones.push(Tone::Plain);
    tones.push(amount_tone(row.total_cents));
    tones
}

/// The tone of the status line.
pub open spec fn tone_of_status(a: tui::AppModel) -> Tone {
    if a.input_mode is Filter {
        Tone::Active
    } else {
        Tone::Dim
    }
}

/// The tone of the status line.
pub fn status_tone(app: &App) -> (r: Tone)
    ensures
        r == tone_of_status(app@),
{
    match app.input_mode() {
        InputMode::Filter { .. } => Tone::Active,
        _ => Tone::Dim,
    }
}

/// The tone of a field of the category modal.
pub open spec fn tone_of_field(m: tui::ModalModel, field: ModalFocus) -> Tone {
    if m.focus == field {
        Tone::Active
    } else {
        Tone::Plain
    }
}

/// The tone of a field of the category modal.
pub fn field_tone(modal: &CategoryModal, field: ModalFocus) -> (r: Tone)
    ensures
        r == tone_of_field(modal@, field),
{
    if modal.focus == field {
        Tone::Active
    } else {
        Tone::Plain
    }
}

/// The tone of the line with the error or the keys.
pub open spec fn tone_of_hint(m: tui::ModalModel) -> Tone {
    if m.error is Some {
        Tone::Alert
    } else {
        Tone::Dim
    }
}

/// The tone of the line with the error or the keys.
pub fn hint_tone(modal: &CategoryModal) -> (r: Tone)
    ensures
        r == tone_of_hint(modal@),
{
    match modal.error {
        Some(_) => Tone::Alert,
        None => Tone::Dim,
    }
}

// --- Amounts and long texts ------------------------------------------------

/// The size of an amount, whatever its sign.
pub open spec fn size(cents: int) -> int {
    if cents < 0 {
        -cents
    } else {
        cents
    }
}

/// An amount in dollars: a minus sign or a space, the dollar sign, the dollars
/// and two digits of cents.
pub open spec fn amount_label(cents: int) -> Seq<char> {
    (if cents < 0 {
        "-"@
    } else {
        " "@
    }) + "$"@ + numeral::decimal((size(cents) / 100) as nat) + "."@ + numeral::two_digits(
        size(cents) % 100,
    )
}

/// Writes an amount in dollars.
pub fn format_amount(cents: i64) -> (r: String)
    ensures
        r@ == amount_label(cents as int),
{
    let size: u64 = numeral::magnitude(cents);
    let mut out = if cents < 0 {
        "-".to_owned()
    } else {
        " ".to_owned()
    };
    out.append("$");
    out.append(numeral::unsigned_text(size / 100).as_str());
    out.append(".");
    out.append(numeral::two_digit_text((size % 100) as u8).as_str());
    out
}

/// A text cut to a number of characters. The last of them is an ellipsis where
/// something is left out.
pub open spec fn shortened(s: Seq<char>, max: nat) -> Seq<char> {
    if s.len() <= max {
        s
    } else {
        text::first_chars(
            s,
            if max == 0 {
                0
            } else {
                (max - 1) as nat
            },
        ).push('…')
    }
}

/// Cuts a text to a number of characters.
pub fn truncate(s: &str, max: usize) -> (r: String)
    ensures
        r@ == shortened(s@, max as nat),
{
    let v = text::chars_of(s);
    if v.len() <= max {
        s.to_owned()
    } else {
        let room: usize = if max == 0 {
            0
        } else {
            max - 1
        };
        let mut out = text::take_chars(s, room);
        out.push('…');
        out
    }
}

// --- Tables ----------------------------------------------------------------

/// A text moved to the right end of a field.
pub open spec fn right_aligned(s: Seq<char>, width: nat) -> Seq<char>
    decreases width - s.len(),
{
    if s.len() >= width {
        s
    } else {
        right_aligned(seq![' '] + s, width)
    }
}

/// Moves a text to the right end of a field.
fn right_align(s: String, width: usize) -> (r: String)
    ensures
        r@ == right_aligned(s@, width as nat),
{
    let len = text::chars_of(s.as_str()).len();
    let mut out = s;
    let mut used: usize = len;
    while used < width
        invariant
            used == out@.len(),
            right_aligned(out@, width as nat) == right_aligned(s@, width as nat),
        decreases width - used,
    {
        let mut wider = " ".to_owned();
        proof {
            reveal_strlit(" ");
        }
        wider.append(out.as_str());
        assert(wider@ =~= seq![' '] + out@);
        out = wider;
        used += 1;
    }
    out
}

/// The text in the category column.
pub open spec fn category_label(category: Option<Seq<char>>) -> Seq<char> {
    match category {
        Some(c) => c,
        None => "—"@,
    }
}

/// The cells of a row of the transaction table.
pub open spec fn transaction_row(row: db::ListedModel) -> Seq<Seq<char>> {
    seq![
        row.txn_date,
        row.source,
        shortened(row.description, 45),
        amount_label(row.amount_cents),
        category_label(row.category),
    ]
}

/// The cells of a row of the transaction table: date, source, description,
/// amount and category.
pub fn transaction_cells(row: &TransactionRow) -> (r: Vec<String>)
    ensures
        text::texts(r@) == transaction_row(row@),
{
    let category = match &row.category {
        Some(c) => c.clone(),
        None => "—".to_owned(),
    };
    let mut cells: Vec<String> = Vec::new();
    cells.push(row.txn_date.clone());
    cells.push(row.source.clone());
    cells.push(truncate(row.description.as_str(), 45));
    cells.push(format_amount(row.amount_cents));
    cells.push(category);
    assert(text::texts(cells@) =~= transaction_row(row@));
    cells
}

/// The cells of a row of the category table.
pub open spec fn category_row(row: db::SummaryModel) -> Seq<Seq<char>> {
    seq![
        row.category,
        right_aligned(numeral::signed_decimal(row.count), 5),
        amount_label(row.total_cents),
    ]
}

/// The cells of a row of the category table: category, count and net amount.
pub fn category_cells(row: &CategorySummary) -> (r: Vec<String>)
    ensures
        text::texts(r@) == category_row(row@),
{
    let mut cells: Vec<String> = Vec::new();
    cells.push(row.category.clone());
    cells.push(right_align(numeral::signed_text(row.count), 5));
    cells.push(format_amount(row.total_cents));
    assert(text::texts(cells@) =~= category_row(row@));
    cells
}

/// The title of the transaction table. With a filter, it says how many of the
/// transactions pass.
pub open spec fn transactions_heading(a: tui::AppModel) -> Seq<char> {
    if a.filter.len() == 0 {
        " Transactions ("@ + numeral::decimal(a.transactions.len()) + ") "@
    } else {
        " Transactions ("@ + numeral::decimal(a.visible.len()) + " of "@ + numeral::decimal(
            a.transactions.len(),
        ) + ", filter: \""@ + a.filter + "\") "@
    }
}

/// The title of the transaction table.
pub fn transactions_title(app: &App) -> (r: String)
    ensures
        r@ == transactions_heading(app@),
{
    let all = app.transactions().len();
    let shown = app.visible().len();
    let mut out = " Transactions (".to_owned();
    if app.filter().is_empty() {
        out.append(numeral::unsigned_text(all as u64).as_str());
        out.append(") ");
    } else {
        out.append(numeral::unsigned_text(shown as u64).as_str());
        out.append(" of ");
        out.append(numeral::unsigned_text(all as u64).as_str());
        out.append(", filter: \"");
        out.append(app.filter());
        out.append("\") ");
    }
    out
}

/// The title of the category table. It says how many categories there are.
pub open spec fn categories_heading(a: tui::AppModel) -> Seq<char> {
    " Categories ("@ + numeral::decimal(a.categories.len()) + ") "@
}

/// The title of the category table.
pub fn categories_title(app: &App) -> (r: String)
    ensures
        r@ == categories_heading(app@),
{
    let mut out = " Categories (".to_owned();
    out.append(numeral::unsigned_text(app.categories().len() as u64).as_str());
    out.append(") ");
    out
}

/// The place of a screen's tab.
pub fn selected_tab(screen: Screen) -> (r: usize)
    ensures
        r == (match screen {
            Screen::Transactions => 0usize,
            Screen::Categories => 1usize,
        }),
{
    match screen {
        Screen::Transactions => 0,
        Screen::Categories => 1,
    }
}

// --- The status line -------------------------------------------------------

/// What the user can do right now.
pub open spec fn status(a: tui::AppModel) -> Seq<char> {
    match a.input_mode {
        tui::ModeModel::Filter { .. } => "Filter: "@ + a.filter
            + "█  (Enter commits · Esc cancels)"@,
        _ => "j/k or ↑↓ scroll · / filter · c categorize · Tab switch view · q quit"@,
    }
}

/// The line that says what the user can do right now.
pub fn status_line(app: &App) -> (r: String)
    ensures
        r@ == status(app@),
{
    match app.input_mode() {
        InputMode::Filter { .. } => {
            let mut out = "Filter: ".to_owned();
            out.append(app.filter());
            out.append("█  (Enter commits · Esc cancels)");
            out
        },
        _ => "j/k or ↑↓ scroll · / filter · c categorize · Tab switch view · q quit".to_owned(),
    }
}

// --- The category modal ----------------------------------------------------

/// How an area is shared out, in percent, so that its middle part has this
/// share: what stands before the middle, the middle, and what stands behind it.
pub fn centered_shares(pct: u16) -> (r: (u16, u16, u16))
    requires
        pct <= 100,
    ensures
        99 <= r.0 + r.1 + r.2 <= 100,
        r.0 == (100 - pct) / 2,
        r.1 == pct,
        r.2 == r.0,
{
    let side: u16 = (100 - pct) / 2;
    (side, pct, side)
}

/// The cursor behind a field.
pub open spec fn cursor(focused: bool) -> Seq<char> {
    if focused {
        "█"@
    } else {
        ""@
    }
}

/// The cursor behind a field.
fn cursor_text(focused: bool) -> (r: &'static str)
    ensures
        r@ == cursor(focused),
{
    if focused {
        "█"
    } else {
        ""
    }
}

/// The line with the category that is typed.
pub open spec fn category_text(m: tui::ModalModel) -> Seq<char> {
    "Category: "@ + m.category_input + cursor(m.focus == ModalFocus::Category)
}

/// The line with the category that is typed.
pub fn category_line(modal: &CategoryModal) -> (r: String)
    ensures
        r@ == category_text(modal@),
{
    let mut out = "Category: ".to_owned();
    out.append(modal.category_input.as_str());
    out.append(cursor_text(modal.focus == ModalFocus::Category));
    out
}

/// The line with the checkbox.
pub open spec fn toggle_text(m: tui::ModalModel) -> Seq<char> {
    "["@ + (if m.apply_to_all {
        "x"@
    } else {
        " "@
    }) + "] Apply to all matching (creates rule)"@
}

/// The line with the checkbox.
pub fn toggle_line(modal: &CategoryModal) -> (r: String)
    ensures
        r@ == toggle_text(modal@),
{
    let mut out = "[".to_owned();
    out.append(
        if modal.apply_to_all {
            "x"
        } else {
            " "
        },
    );
    out.append("] Apply to all matching (creates rule)");
    out
}

/// The line with the pattern that is typed, where the category is to be applied
/// to all.
pub open spec fn pattern_text(m: tui::ModalModel) -> Option<Seq<char>> {
    if m.apply_to_all {
        Some("Pattern:  "@ + m.pattern_input + cursor(m.focus == ModalFocus::Pattern))
    } else {
        None
    }
}

/// The line with the pattern that is typed. It is blank unless the category is
/// to be applied to all.
pub fn pattern_line(modal: &CategoryModal) -> (r: Option<String>)
    ensures
        text::optional_text(r) == pattern_text(modal@),
{
    if modal.apply_to_all {
        let mut out = "Pattern:  ".to_owned();
        out.append(modal.pattern_input.as_str());
        out.append(cursor_text(modal.focus == ModalFocus::Pattern));
        Some(out)
    } else {
        None
    }
}

/// The line with the error, or with the keys where there is none.
pub open spec fn hint_text(m: tui::ModalModel) -> Seq<char> {
    match m.error {
        Some(message) => "Error: "@ + message,
        None => "Tab: next field · Space: toggle · Enter: apply · Esc: cancel"@,
    }
}

/// The line with the error, or with the keys where there is none.
pub fn hint_line(modal: &CategoryModal) -> (r: String)
    ensures
        r@ == hint_text(modal@),
{
    match &modal.error {
        Some(message) => {
            let mut out = "Error: ".to_owned();
            out.append(message.as_str());
            out
        },
        None => "Tab: next field · Space: toggle · Enter: apply · Esc: cancel".to_owned(),
    }
}

/// The categories that hold the input, whatever the case, in order.
pub open spec fn matching_categories(list: Seq<Seq<char>>, input: Seq<char>) -> Seq<Seq<char>> {
    list.filter(
        |c: Seq<char>| text::contains_text(text::lowercase(c), text::lowercase(input)),
    )
}

/// The first five of the categories that hold the input.
pub open spec fn suggested(list: Seq<Seq<char>>, input: Seq<char>) -> Seq<Seq<char>> {
    let matching = matching_categories(list, input);
    if matching.len() <= 5 {
        matching
    } else {
        matching.take(5)
    }
}

/// The categories that are suggested for an input.
pub fn suggestions(category_list: &Vec<String>, input: &str) -> (r: Vec<String>)
    ensures
        text::texts(r@) == suggested(text::texts(category_list@), input@),
{
    let lowered = text::to_lowercase(input);
    let ghost list = text::texts(category_list@);
    let ghost holds = |c: Seq<char>|
        text::contains_text(text::lowercase(c), text::lowercase(input@));
    let mut out: Vec<String> = Vec::new();
    let mut i: usize = 0;
    proof {
        reveal(Seq::filter);
        assert(list.take(0) =~= Seq::<Seq<char>>::empty());
        assert(text::texts(out@) =~= list.take(0).filter(holds));
    }
    while i < category_list.len() && out.len() < 5
        invariant
            i <= category_list.len(),
            out.len() <= 5,
            list == text::texts(category_list@),
            lowered@ == text::lowercase(input@),
            holds == (|c: Seq<char>|
                text::contains_text(text::lowercase(c), text::lowercase(input@))),
            text::texts(out@) == list.take(i as int).filter(holds),
        decreases category_list.len() - i,
    {
        proof {
            reveal(Seq::filter);
            assert(list.take(i + 1).drop_last() =~= list.take(i as int));
            assert(list.take(i + 1).last() == category_list@[i as int]@);
        }
        let ghost before = out@;
        let category = text::to_lowercase(category_list[i].as_str());
        if text::contains(category.as_str(), lowered.as_str()) {
            out.push(category_list[i].clone());
            assert(text::texts(out@) =~= text::texts(before).push(category_list@[i as int]@));
        }
        i += 1;
    }
    proof {
        text::lemma_filter_of_prefix(list, holds, i as int);
        let matching = matching_categories(list, input@);
        assert(matching == list.filter(holds));
        if matching.len() > 5 {
            assert(text::texts(out@) =~= matching.take(5));
        } else if i < category_list.len() {
            assert(text::texts(out@) =~= matching);
        }
    }
    out
}

} // verus!
