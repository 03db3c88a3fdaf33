//! Money: reading the amounts of bank exports as integer cents.

use crate::numeral;
use crate::screen;
use crate::text;
use crate::text_laws;
use vstd::prelude::*;

verus! {

/// The amount as it is read: without white space around it and without commas,
/// so that `1,234.56` is fine.
pub open spec fn cleaned(s: Seq<char>) -> Seq<char> {
    text::trimmed(s).filter(|c: char| c != ',')
}

/// Removes white space around an amount and the commas in it.
pub fn clean_amount(s: &str) -> (r: String)
    ensures
        r@ == cleaned(s@),
{
    let line = text::trim(s);
    let ghost keep = |c: char| c != ',';
    let mut out = String::new();
    assert(line@.take(0).filter(keep) =~= Seq::<char>::empty()) by {
        reveal(Seq::filter);
    }
    for c in it: line.as_str().chars()
        invariant
            it.seq() == line@,
            keep == |c: char| c != ',',
            out@ == line@.take(it.index() as int).filter(keep),
    {
        let ghost upto = line@.take(it.index() + 1);
        assert(upto.drop_last() =~= line@.take(it.index() as int));
        assert(upto.last() == c);
        assert(upto.filter(keep) == (if keep(c) {
            upto.drop_last().filter(keep).push(c)
        } else {
            upto.drop_last().filter(keep)
        })) by {
            reveal(Seq::filter);
        }
        if c != ',' {
            out.push(c);
        }
    }
    assert(line@.take(line@.len() as int) =~= line@);
    out
}

/// Whether the text starts with a sign.
pub open spec fn has_sign(t: Seq<char>) -> bool {
    t.len() > 0 && (t[0] == '+' || t[0] == '-')
}

/// The text after its sign, if it has one.
pub open spec fn unsigned_part(t: Seq<char>) -> Seq<char> {
    if has_sign(t) {
        t.drop_first()
    } else {
        t
    }
}

/// How many characters stand before the first decimal point, or in all where
/// there is none.
pub open spec fn point(u: Seq<char>) -> int
    decreases u.len(),
{
    if u.len() == 0 || u[0] == '.' {
        0
    } else {
        1 + point(u.drop_first())
    }
}

/// The digits before the decimal point.
pub open spec fn whole_part(u: Seq<char>) -> Seq<char> {
    u.take(point(u))
}

/// The digits after the decimal point.
pub open spec fn fraction(u: Seq<char>) -> Seq<char> {
    if point(u) < u.len() {
        u.skip(point(u) + 1)
    } else {
        Seq::empty()
    }
}

/// The text is an amount of money as banks write it: an optional sign, at most
/// fourteen digits and at most two decimals, of ten trillion at most.
pub open spec fn is_plain_amount(t: Seq<char>) -> bool {
    let u = unsigned_part(t);
    &&& numeral::all_digits(whole_part(u))
    &&& numeral::all_digits(fraction(u))
    &&& whole_part(u).len() <= 14
    &&& fraction(u).len() <= 2
    &&& whole_part(u).len() + fraction(u).len() > 0
    &&& stated_size(u) <= 1_000_000_000_000_000
}

/// The cents that at most two decimals stand for.
pub open spec fn fraction_cents(f: Seq<char>) -> int {
    if f.len() == 1 {
        numeral::digits_value(f) * 10
    } else {
        numeral::digits_value(f)
    }
}

/// The cents that the digits of an amount stand for, whatever its sign.
pub open spec fn stated_size(u: Seq<char>) -> int {
    numeral::digits_value(whole_part(u)) * 100 + fraction_cents(fraction(u))
}

/// The cents that an amount as banks write it stands for.
pub open spec fn plain_cents(t: Seq<char>) -> int {
    let size = stated_size(unsigned_part(t));
    if has_sign(t) && t[0] == '-' {
        -size
    } else {
        size
    }
}

/// Ten to the power of a number.
pub open spec fn power_of_ten(n: nat) -> int
    decreases n,
{
    if n == 0 {
        1
    } else {
        10 * power_of_ten((n - 1) as nat)
    }
}

proof fn lemma_power_of_ten_bound(n: nat)
    requires
        n <= 14,
    ensures
        1 <= power_of_ten(n) <= 100_000_000_000_000,
{
    reveal_with_fuel(power_of_ten, 15);
}

/// The number that the characters from `lo` up to `hi` stand for, where they
/// are all digits.
fn read_digits(v: &Vec<char>, lo: usize, hi: usize) -> (r: Option<i64>)
    requires
        lo <= hi <= v.len(),
        hi - lo <= 14,
    ensures
        r is Some <==> numeral::all_digits(v@.subrange(lo as int, hi as int)),
        r matches Some(n) ==> {
            &&& n == numeral::digits_value(v@.subrange(lo as int, hi as int))
            &&& 0 <= n < power_of_ten((hi - lo) as nat)
        },
{
    let mut n: i64 = 0;
    let mut i: usize = lo;
    while i < hi
        invariant
            lo <= i <= hi <= v.len(),
            hi - lo <= 14,
            numeral::all_digits(v@.subrange(lo as int, i as int)),
            n == numeral::digits_value(v@.subrange(lo as int, i as int)),
            0 <= n < power_of_ten((i - lo) as nat),
        decreases hi - i,
    {
        let c = v[i];
        let ghost upto = v@.subrange(lo as int, i + 1);
        assert(upto.drop_last() =~= v@.subrange(lo as int, i as int));
        assert(upto.last() == c);
        if !('0' <= c && c <= '9') {
            assert(v@.subrange(lo as int, hi as int)[i - lo] == c);
            return None;
        }
        proof {
            lemma_power_of_ten_bound((i - lo) as nat);
            assert forall|k: int| 0 <= k < upto.len() implies numeral::is_digit(#[trigger] upto[k]) by {
                if k < upto.len() - 1 {
                    assert(upto[k] == v@.subrange(lo as int, i as int)[k]);
                }
            }
        }
        n = n * 10 + (c as u32 as i64 - 48);
        i += 1;
    }
    Some(n)
}

/// The cents of an amount as banks write it, or `None` where the text is
/// something else.
pub fn read_plain_cents(t: &str) -> (r: Option<i64>)
    ensures
        r is Some <==> is_plain_amount(t@),
        r matches Some(c) ==> c == plain_cents(t@) && -1_000_000_000_000_000 <= c
            <= 1_000_000_000_000_000,
{
    let v = text::chars_of(t);
    let signed = v.len() > 0 && (v[0] == '+' || v[0] == '-');
    let lo: usize = if signed {
        1
    } else {
        0
    };
    let ghost u = unsigned_part(t@);
    assert(u =~= v@.skip(lo as int));
    let mut dot: usize = lo;
    assert(u.skip(0) =~= u);
    while dot < v.len() && v[dot] != '.'
        invariant
            lo <= dot <= v.len(),
            u == v@.skip(lo as int),
            point(u) == dot - lo + point(u.skip(dot - lo)),
        decreases v.len() - dot,
    {
        assert(u.skip(dot - lo)[0] == v@[dot as int]);
        assert(u.skip(dot - lo).drop_first() =~= u.skip(dot + 1 - lo));
        dot += 1;
    }
    proof {
        if dot < v.len() {
            assert(u.skip(dot - lo)[0] == v@[dot as int]);
        }
    }
    assert(point(u) == dot - lo);
    assert(whole_part(u) =~= v@.subrange(lo as int, dot as int));
    let start: usize = if dot < v.len() {
        dot + 1
    } else {
        dot
    };
    let end: usize = v.len();
    assert(fraction(u) =~= v@.subrange(start as int, end as int));
    if dot - lo > 14 || end - start > 2 || dot - lo + (end - start) == 0 {
        return None;
    }
    proof {
        lemma_power_of_ten_bound((dot - lo) as nat);
        reveal_with_fuel(power_of_ten, 3);
    }
    match (read_digits(&v, lo, dot), read_digits(&v, start, end)) {
        (Some(whole), Some(decimals)) => {
            let rest: i64 = if end - start == 1 {
                decimals * 10
            } else {
                decimals
            };
            let magnitude: i64 = whole * 100 + rest;
            if magnitude > 1_000_000_000_000_000 {
                None
            } else if signed && v[0] == '-' {
                Some(-magnitude)
            } else {
                Some(magnitude)
            }
        },
        _ => None,
    }
}

/// The cents of an amount: those that it states, where it is written as banks
/// write amounts, and otherwise the given reading of it as a floating-point
/// number, if it is one.
pub open spec fn cents(s: Seq<char>, rounded: Option<i64>) -> Option<int> {
    if is_plain_amount(cleaned(s)) {
        Some(plain_cents(cleaned(s)))
    } else {
        match rounded {
            Some(c) => Some(c as int),
            None => None,
        }
    }
}

/// The cents of an amount. `rounded` is the amount read as a floating-point
/// number, times a hundred and rounded, or `None` where it is not a number. It
/// is used only where the amount is not a plain one of at most two decimals:
/// for those the cents are exact.
pub fn parse_cents(s: &str, rounded: Option<i64>) -> (r: Option<i64>)
    ensures
        (match r {
            Some(c) => cents(s@, rounded) == Some(c as int),
            None => cents(s@, rounded) is None,
        }),
{
    let t = clean_amount(s);
    match read_plain_cents(t.as_str()) {
        Some(c) => Some(c),
        None => rounded,
    }
}

// --- Laws ------------------------------------------------------------------

/// An amount of cents as a bank writes it, with two decimals.
pub open spec fn amount_text(c: int) -> Seq<char> {
    let m = if c < 0 {
        -c
    } else {
        c
    };
    let digits = numeral::decimal((m / 100) as nat) + seq!['.'] + numeral::two_digits(m % 100);
    if c < 0 {
        seq!['-'] + digits
    } else {
        digits
    }
}

proof fn lemma_decimal_length(n: nat, k: nat)
    requires
        n < power_of_ten(k),
        k > 0,
    ensures
        numeral::decimal(n).len() <= k,
    decreases k,
{
    if n >= 10 {
        assert(power_of_ten(k) == 10 * power_of_ten((k - 1) as nat));
        assert(k > 1) by {
            if k == 1 {
                assert(power_of_ten(0) == 1);
            }
        }
        lemma_decimal_length(n / 10, (k - 1) as nat);
    }
}

proof fn lemma_point(a: Seq<char>, b: Seq<char>)
    requires
        forall|i: int| 0 <= i < a.len() ==> #[trigger] a[i] != '.',
    ensures
        point(a + seq!['.'] + b) == a.len(),
    decreases a.len(),
{
    let u = a + seq!['.'] + b;
    if a.len() > 0 {
        let rest = a.drop_first();
        assert(u.drop_first() =~= rest + seq!['.'] + b);
        assert forall|i: int| 0 <= i < rest.len() implies #[trigger] rest[i] != '.' by {
            assert(rest[i] == a[i + 1]);
        }
        assert(u[0] == a[0]);
        lemma_point(rest, b);
    }
}

proof fn lemma_nothing_to_clean(t: Seq<char>)
    requires
        t.len() > 0,
        !text::white_space(t[0]),
        !text::white_space(t.last()),
        forall|i: int| 0 <= i < t.len() ==> #[trigger] t[i] != ',',
    ensures
        cleaned(t) == t,
{
    lemma_nothing_to_remove(t, ',');
    assert(cleaned(t) == t.filter(|c: char| c != ','));
}

/// Nothing goes where the character to remove does not occur.
proof fn lemma_nothing_to_remove(t: Seq<char>, x: char)
    requires
        forall|i: int| 0 <= i < t.len() ==> #[trigger] t[i] != x,
    ensures
        t.filter(|c: char| c != x) == t,
    decreases t.len(),
{
    reveal(Seq::filter);
    if t.len() > 0 {
        let init = t.drop_last();
        assert forall|i: int| 0 <= i < init.len() implies #[trigger] init[i] != x by {
            assert(init[i] == t[i]);
        }
        lemma_nothing_to_remove(init, x);
        assert(t[t.len() - 1] == t.last());
        assert(init.push(t.last()) =~= t);
    } else {
        assert(t.filter(|c: char| c != x) =~= t);
    }
}

/// What the digits of a written amount consist of.
proof fn lemma_written_digits(m: int) -> (u: Seq<char>)
    requires
        0 <= m <= 1_000_000_000_000_000,
    ensures
        u == numeral::decimal((m / 100) as nat) + seq!['.'] + numeral::two_digits(m % 100),
        u.len() > 0,
        numeral::is_digit(u[0]),
        numeral::is_digit(u.last()),
        forall|i: int| 0 <= i < u.len() ==> numeral::is_digit(#[trigger] u[i]) || u[i] == '.',
        numeral::all_digits(whole_part(u)),
        numeral::all_digits(fraction(u)),
        0 < whole_part(u).len() <= 14,
        fraction(u).len() == 2,
        numeral::digits_value(whole_part(u)) == m / 100,
        numeral::digits_value(fraction(u)) == m % 100,
{
    let whole = numeral::decimal((m / 100) as nat);
    let decimals = numeral::two_digits(m % 100);
    let u = whole + seq!['.'] + decimals;
    numeral::decimal_reads_back((m / 100) as nat);
    numeral::two_digits_read_back(m % 100);
    assert(power_of_ten(14) == 100_000_000_000_000) by {
        reveal_with_fuel(power_of_ten, 15);
    }
    lemma_decimal_length((m / 100) as nat, 14);
    assert(u[0] == whole[0]);
    assert(u.last() == decimals[1]);
    lemma_point(whole, decimals);
    assert(whole_part(u) =~= whole);
    assert(fraction(u) =~= decimals);
    assert forall|i: int| 0 <= i < u.len() implies numeral::is_digit(#[trigger] u[i]) || u[i]
        == '.' by {
        if i < whole.len() {
            assert(u[i] == whole[i]);
        } else if i > whole.len() {
            assert(u[i] == decimals[i - whole.len() - 1]);
        }
    }
    u
}

/// An amount is plain, and stands for what its digits and its sign say.
proof fn lemma_plain(t: Seq<char>, u: Seq<char>, m: int)
    requires
        unsigned_part(t) == u,
        numeral::all_digits(whole_part(u)),
        numeral::all_digits(fraction(u)),
        0 < whole_part(u).len() <= 14,
        fraction(u).len() == 2,
        numeral::digits_value(whole_part(u)) == m / 100,
        numeral::digits_value(fraction(u)) == m % 100,
        m <= 1_000_000_000_000_000,
    ensures
        is_plain_amount(t),
        plain_cents(t) == if has_sign(t) && t[0] == '-' {
            -m
        } else {
            m
        },
{
}

/// The cents of an amount that is written out with two decimals are read back
/// exactly, up to ten trillion dollars in either direction, and the floating-point
/// reading plays no part.
pub proof fn written_amount_is_read_exactly(c: int, rounded: Option<i64>)
    requires
        -1_000_000_000_000_000 <= c <= 1_000_000_000_000_000,
    ensures
        cents(amount_text(c), rounded) == Some(c),
{
    let m = if c < 0 {
        -c
    } else {
        c
    };
    let sign = if c < 0 {
        seq!['-']
    } else {
        Seq::<char>::empty()
    };
    let u = lemma_written_digits(m);
    assert(numeral::is_digit(u[0]));
    assert(unsigned_part(u) == u);
    lemma_plain(u, u, m);
    lemma_signed_reading(sign, u, rounded);
    assert(stated_size(u) == m);
    assert(amount_text(c) =~= sign + u);
    assert(c >= 0 ==> sign.len() != seq!['-'].len());
}

/// An amount as it is shown, without its dollar sign.
pub open spec fn without_dollar_sign(label: Seq<char>) -> Seq<char> {
    label.filter(|c: char| c != '$')
}

/// A text with the dollar sign behind its first character loses just that.
proof fn lemma_dollar_sign_removed(sign: char, u: Seq<char>)
    requires
        sign != '$',
        forall|i: int| 0 <= i < u.len() ==> #[trigger] u[i] != '$',
    ensures
        without_dollar_sign(seq![sign, '$'] + u) == seq![sign] + u,
{
    let keep = |c: char| c != '$';
    let front = seq![sign, '$'];
    Seq::filter_distributes_over_add(front, u, keep);
    lemma_nothing_to_remove(u, '$');
    assert(front.filter(keep) =~= seq![sign]) by {
        reveal(Seq::filter);
        let one = front.drop_last();
        assert(one =~= seq![sign]);
        assert(one.drop_last() =~= Seq::<char>::empty());
        assert(one.drop_last().filter(keep) =~= Seq::<char>::empty());
        assert(one.filter(keep) =~= seq![sign]);
        assert(front.filter(keep) == one.filter(keep));
    }
}

/// Every amount up to ten trillion dollars in either direction that is shown is
/// read back to the exact cent, with its sign, once its dollar sign is removed.
pub proof fn shown_amount_is_read_exactly(c: int, rounded: Option<i64>)
    requires
        -1_000_000_000_000_000 <= c <= 1_000_000_000_000_000,
    ensures
        cents(without_dollar_sign(screen::amount_label(c)), rounded) == Some(c),
{
    reveal_strlit("-");
    reveal_strlit(" ");
    reveal_strlit("$");
    reveal_strlit(".");
    let sign = if c < 0 {
        '-'
    } else {
        ' '
    };
    let u = lemma_written_digits(screen::size(c));
    assert(screen::amount_label(c) =~= seq![sign, '$'] + u);
    lemma_dollar_sign_removed(sign, u);
    written_amount_is_read_exactly(c, rounded);
    let t = seq![sign] + u;
    if c < 0 {
        assert(t == amount_text(c));
    } else {
        assert(u == amount_text(c));
        assert(t.drop_first() =~= u);
        assert(text::trim_start(t) == text::trim_start(u));
        assert(cleaned(t) == cleaned(u));
    }
}

/// White space around an amount plays no part.
pub proof fn white_space_around_amounts_plays_no_part(
    a: Seq<char>,
    s: Seq<char>,
    b: Seq<char>,
    rounded: Option<i64>,
)
    requires
        text::all_white(a),
        text::all_white(b),
        text_laws::bare_ends(s),
    ensures
        cents(a + s + b, rounded) == cents(s, rounded),
{
    let empty = Seq::<char>::empty();
    text_laws::trim_finds_what_is_between(a, s, b);
    text_laws::trim_finds_what_is_between(empty, s, empty);
    assert(empty + s + empty =~= s);
}

/// Commas inside an amount play no part.
pub proof fn commas_in_amounts_play_no_part(x: Seq<char>, y: Seq<char>, rounded: Option<i64>)
    requires
        x.len() > 0,
        y.len() > 0,
        !text::white_space(x[0]),
        !text::white_space(y[y.len() - 1]),
    ensures
        cents(x + seq![','] + y, rounded) == cents(x + y, rounded),
{
    let keep = |c: char| c != ',';
    let empty = Seq::<char>::empty();
    let with = x + seq![','] + y;
    let without = x + y;
    text_laws::trim_finds_what_is_between(empty, with, empty);
    text_laws::trim_finds_what_is_between(empty, without, empty);
    assert(empty + with + empty =~= with);
    assert(empty + without + empty =~= without);
    Seq::filter_distributes_over_add(x + seq![','], y, keep);
    Seq::filter_distributes_over_add(x, seq![','], keep);
    Seq::filter_distributes_over_add(x, y, keep);
    assert(seq![','].filter(keep) =~= empty) by {
        reveal(Seq::filter);
        let one = seq![','];
        assert(one.drop_last() =~= empty);
        assert(one.drop_last().filter(keep) =~= empty);
    }
    assert(x.filter(keep) + empty =~= x.filter(keep));
    assert(cleaned(with) == with.filter(keep));
    assert(cleaned(without) == without.filter(keep));
}

/// The text before the first decimal point, in a text that has none.
proof fn lemma_no_point(a: Seq<char>)
    requires
        forall|i: int| 0 <= i < a.len() ==> #[trigger] a[i] != '.',
    ensures
        point(a) == a.len(),
    decreases a.len(),
{
    if a.len() > 0 {
        let rest = a.drop_first();
        assert forall|i: int| 0 <= i < rest.len() implies #[trigger] rest[i] != '.' by {
            assert(rest[i] == a[i + 1]);
        }
        assert(a[0] != '.');
        lemma_no_point(rest);
    }
}

/// A number with a sign, or without, is read as the cents that its digits
/// state, where these are few enough.
proof fn lemma_signed_reading(sign: Seq<char>, u: Seq<char>, rounded: Option<i64>)
    requires
        sign == Seq::<char>::empty() || sign == seq!['+'] || sign == seq!['-'],
        u.len() > 0,
        forall|i: int| 0 <= i < u.len() ==> numeral::is_digit(#[trigger] u[i]) || u[i] == '.',
        is_plain_amount(u),
    ensures
        cents(sign + u, rounded) == Some(
            if sign == seq!['-'] {
                -stated_size(u)
            } else {
                stated_size(u)
            },
        ),
{
    let t = sign + u;
    assert(numeral::is_digit(u[0]) || u[0] == '.');
    assert(numeral::is_digit(u[u.len() - 1]) || u[u.len() - 1] == '.');
    assert(!has_sign(u));
    assert(unsigned_part(u) == u);
    if sign.len() == 0 {
        assert(t =~= u);
    } else {
        assert(t[0] == sign[0]);
        assert(t.drop_first() =~= u);
    }
    assert(unsigned_part(t) == u);
    assert(t.last() == u[u.len() - 1]);
    assert forall|i: int| 0 <= i < t.len() implies #[trigger] t[i] != ',' by {
        if i >= sign.len() {
            assert(t[i] == u[i - sign.len()]);
        }
    }
    lemma_nothing_to_clean(t);
    assert(is_plain_amount(t));
    if sign == seq!['-'] {
        assert(t[0] == '-');
    } else if sign.len() > 0 {
        assert(t[0] == '+');
        assert(seq!['+'][0] != seq!['-'][0]);
    } else {
        assert(!has_sign(t));
        assert(seq!['-'].len() == 1);
    }
}

/// An amount of whole dollars is read as a hundred times as many cents, with a
/// decimal point behind it or without. One decimal is tens of cents, two are
/// cents. A minus sign makes them negative, and a plus sign changes nothing.
pub proof fn amount_is_read_by_its_decimals(
    sign: Seq<char>,
    n: nat,
    d: int,
    e: int,
    rounded: Option<i64>,
)
    requires
        sign == Seq::<char>::empty() || sign == seq!['+'] || sign == seq!['-'],
        n < 10_000_000_000_000,
        0 <= d <= 9,
        0 <= e <= 9,
    ensures
        ({
            let f = if sign == seq!['-'] {
                -1int
            } else {
                1int
            };
            let whole = numeral::decimal(n);
            let point = seq!['.'];
            let tens = seq![numeral::digit(d)];
            let ones = seq![numeral::digit(e)];
            &&& cents(sign + whole, rounded) == Some(f * (n * 100))
            &&& cents(sign + (whole + point), rounded) == Some(f * (n * 100))
            &&& cents(sign + (whole + point + tens), rounded) == Some(f * (n * 100 + d * 10))
            &&& cents(sign + (whole + point + (tens + ones)), rounded) == Some(
                f * (n * 100 + d * 10 + e),
            )
        }),
{
    let whole = numeral::decimal(n);
    let p = seq!['.'];
    let tens = seq![numeral::digit(d)];
    let ones = seq![numeral::digit(e)];
    let both = tens + ones;
    let empty = Seq::<char>::empty();
    numeral::decimal_reads_back(n);
    assert(power_of_ten(13) == 10_000_000_000_000) by {
        reveal_with_fuel(power_of_ten, 14);
    }
    lemma_decimal_length(n, 13);
    assert forall|i: int| 0 <= i < whole.len() implies #[trigger] whole[i] != '.' by {
        assert(numeral::is_digit(whole[i]));
    }
    assert(numeral::digits_value(empty) == 0);
    assert(tens.drop_last() =~= empty);
    assert(numeral::digits_value(tens) == d);
    assert(both.drop_last() =~= tens);
    assert(both.last() == numeral::digit(e));
    assert(numeral::digits_value(both) == d * 10 + e);
    assert(numeral::all_digits(tens));
    assert(numeral::all_digits(both));
    // Whole dollars.
    lemma_no_point(whole);
    assert(whole_part(whole) =~= whole);
    assert(fraction(whole) =~= empty);
    lemma_reading(sign, whole, whole, empty, rounded);
    // A point and no decimals.
    let u = whole + p;
    lemma_point(whole, empty);
    assert(whole + p + empty =~= u);
    assert(whole_part(u) =~= whole);
    assert(fraction(u) =~= empty);
    lemma_reading(sign, u, whole, empty, rounded);
    // One decimal.
    let v = whole + p + tens;
    lemma_point(whole, tens);
    assert(whole_part(v) =~= whole);
    assert(fraction(v) =~= tens);
    lemma_reading(sign, v, whole, tens, rounded);
    // Two decimals.
    let w = whole + p + both;
    lemma_point(whole, both);
    assert(whole_part(w) =~= whole);
    assert(fraction(w) =~= both);
    lemma_reading(sign, w, whole, both, rounded);
}

/// A number of a whole part and decimals is read by these.
proof fn lemma_reading(
    sign: Seq<char>,
    u: Seq<char>,
    whole: Seq<char>,
    decimals: Seq<char>,
    rounded: Option<i64>,
)
    requires
        sign == Seq::<char>::empty() || sign == seq!['+'] || sign == seq!['-'],
        u == whole || u == whole + seq!['.'] + decimals || (u == whole + seq!['.']
            && decimals.len() == 0),
        whole_part(u) == whole,
        fraction(u) == decimals,
        numeral::all_digits(whole),
        numeral::all_digits(decimals),
        0 < whole.len() <= 13,
        decimals.len() <= 2,
        0 <= numeral::digits_value(whole) < 10_000_000_000_000,
        0 <= fraction_cents(decimals) < 100,
    ensures
        cents(sign + u, rounded) == Some(
            if sign == seq!['-'] {
                -(numeral::digits_value(whole) * 100 + fraction_cents(decimals))
            } else {
                numeral::digits_value(whole) * 100 + fraction_cents(decimals)
            },
        ),
{
    assert forall|i: int| 0 <= i < u.len() implies numeral::is_digit(#[trigger] u[i]) || u[i]
        == '.' by {
        if i < whole.len() {
            assert(u[i] == whole[i]);
        } else if i > whole.len() {
            assert(u[i] == decimals[i - whole.len() - 1]);
        }
    }
    assert(u[0] == whole[0]);
    assert(!has_sign(u));
    assert(is_plain_amount(u));
    lemma_signed_reading(sign, u, rounded);
}

/// A text with a character that amounts do not have is not read digit by digit:
/// it stands for what the floating-point reading gives, if that gives anything.
pub proof fn other_texts_go_by_the_rounded_reading(s: Seq<char>, i: int, rounded: Option<i64>)
    requires
        0 <= i < s.len(),
        !numeral::is_digit(s[i]),
        s[i] != '.' && s[i] != ',' && s[i] != '+' && s[i] != '-',
        !text::white_space(s[i]),
    ensures
        cents(s, rounded) == (match rounded {
            Some(c) => Some(c as int),
            None => None,
        }),
{
    let c = s[i];
    let keep = |x: char| x != ',';
    let (a, b) = text_laws::trim_takes_white_space_off_the_ends(s);
    let t = text::trimmed(s);
    assert(t.contains(c)) by {
        if i < a.len() {
            assert(s[i] == a[i]);
        } else if i >= a.len() + t.len() {
            assert(s[i] == b[i - a.len() - t.len()]);
        } else {
            assert(t[i - a.len()] == c);
        }
    }
    let k = choose|k: int| 0 <= k < t.len() && t[k] == c;
    broadcast use vstd::seq_lib::group_filter_ensures;
    assert(keep(t[k]));
    let u = cleaned(s);
    assert(u == t.filter(keep));
    assert(u.contains(c));
    let j = choose|j: int| 0 <= j < u.len() && u[j] == c;
    let v = unsigned_part(u);
    let m = if has_sign(u) {
        j - 1
    } else {
        j
    };
    assert(0 <= m < v.len() && v[m] == c);
    lemma_point_is_a_point(v);
    if m < point(v) {
        assert(whole_part(v)[m] == c);
    } else if m > point(v) {
        assert(fraction(v)[m - point(v) - 1] == c);
    }
    assert(!is_plain_amount(u));
}

/// Where a text has a decimal point, the first one stands after its whole part.
proof fn lemma_point_is_a_point(u: Seq<char>)
    ensures
        0 <= point(u) <= u.len(),
        point(u) < u.len() ==> u[point(u)] == '.',
    decreases u.len(),
{
    if u.len() > 0 && u[0] != '.' {
        lemma_point_is_a_point(u.drop_first());
    }
}

} // verus!
