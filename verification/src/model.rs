//! The canonical, internal representation of a transaction. Rows of every
//! bank are brought into this shape before they are stored.

use crate::date;
use crate::date::CalendarDate;
use crate::digest;
use crate::numeral;
use crate::text;
use vstd::prelude::*;

verus! {

/// The bank that a transaction comes from.
#[derive(Debug, Clone, Copy, PartialEq, Eq, Structural)]
pub enum Source {
    WellsFargo,
    Amex,
}

/// The text that stands for a source in the database.
pub open spec fn source_text(source: Source) -> Seq<char> {
    match source {
        Source::WellsFargo => "wells_fargo"@,
        Source::Amex => "amex"@,
    }
}

impl Source {
    /// The text that is stored in the database.
    pub fn as_str(self) -> (r: &'static str)
        ensures
            r@ == source_text(self),
    {
        match self {
            Source::WellsFargo => "wells_fargo",
            Source::Amex => "amex",
        }
    }
}

/// One transaction of a bank account or a credit card.
#[derive(Debug)]
pub struct Transaction {
    pub source: Source,
    pub txn_date: CalendarDate,
    pub description: String,
    /// Negative is money out, positive is money in.
    pub amount_cents: i64,
    /// Known for Amex only.
    pub card_member: Option<String>,
}

/// A transaction, with its date as year, month and day.
pub struct TransactionModel {
    pub source: Source,
    pub txn_date: (int, int, int),
    pub description: Seq<char>,
    pub amount_cents: int,
    pub card_member: Option<Seq<char>>,
}

impl View for Transaction {
    type V = TransactionModel;

    open spec fn view(&self) -> TransactionModel {
        TransactionModel {
            source: self.source,
            txn_date: self.txn_date@,
            description: self.description@,
            amount_cents: self.amount_cents as int,
            card_member: text::optional_text(self.card_member),
        }
    }
}

/// What tells one transaction from another: source, date, cents and
/// description, with a bar between each and the next.
pub open spec fn payload(t: TransactionModel) -> Seq<char> {
    source_text(t.source) + seq!['|'] + date::iso_text(t.txn_date.0, t.txn_date.1, t.txn_date.2)
        + seq!['|'] + numeral::signed_decimal(t.amount_cents) + seq!['|'] + t.description
}

/// The fingerprint of a transaction.
pub open spec fn fingerprint(t: TransactionModel) -> Seq<char> {
    payload_fingerprint(payload(t))
}

/// The fingerprint of a payload: the hexadecimal text of the SHA-256 digest of
/// its bytes in UTF-8.
pub open spec fn payload_fingerprint(payload: Seq<char>) -> Seq<char> {
    digest::hex_text(digest::sha256(vstd::utf8::encode_utf8(payload)))
}

impl Transaction {
    /// What tells this transaction from others, as text.
    pub fn payload(&self) -> (r: String)
        ensures
            r@ == payload(self@),
    {
        let mut out = String::new();
        out.append(self.source.as_str());
        out.push('|');
        out.append(self.txn_date.to_iso().as_str());
        out.push('|');
        out.append(numeral::signed_text(self.amount_cents).as_str());
        out.push('|');
        out.append(self.description.as_str());
        assert(out@ =~= payload(self@));
        out
    }

    /// The fingerprint by which duplicates are found.
    pub fn fingerprint(&self) -> (r: String)
        ensures
            r@ == fingerprint(self@),
            r@.len() == 64,
    {
        let payload = self.payload();
        let sum = digest::sha256_digest(payload.as_str().as_bytes());
        digest::hex_encode(sum.as_slice())
    }
}

// --- Laws ------------------------------------------------------------------

/// Two texts that each end before their first bar, followed by a bar and a
/// rest: where the wholes are equal, so are the parts.
proof fn lemma_split_at_bar(a: Seq<char>, x: Seq<char>, b: Seq<char>, y: Seq<char>)
    requires
        a + seq!['|'] + x == b + seq!['|'] + y,
        !a.contains('|'),
        !b.contains('|'),
    ensures
        a == b,
        x == y,
{
    let s = a + seq!['|'] + x;
    assert(s[a.len() as int] == '|');
    assert((b + seq!['|'] + y)[b.len() as int] == '|');
    if a.len() < b.len() {
        assert((b + seq!['|'] + y)[a.len() as int] == b[a.len() as int]);
    }
    if b.len() < a.len() {
        assert(s[b.len() as int] == a[b.len() as int]);
    }
    assert(a =~= s.take(a.len() as int));
    assert(b =~= (b + seq!['|'] + y).take(b.len() as int));
    assert(x =~= s.skip(a.len() as int + 1));
    assert(y =~= (b + seq!['|'] + y).skip(b.len() as int + 1));
}

/// A text of digits and signs has no bar.
proof fn lemma_numeral_has_no_bar(n: int)
    ensures
        !numeral::signed_decimal(n).contains('|'),
{
    let m = (if n < 0 {
        -n
    } else {
        n
    }) as nat;
    numeral::decimal_reads_back(m);
    let s = numeral::signed_decimal(n);
    assert forall|i: int| 0 <= i < s.len() implies s[i] != '|' by {
        let j = if n < 0 {
            i - 1
        } else {
            i
        };
        if j >= 0 {
            assert(s[i] == numeral::decimal(m)[j]);
        }
    }
}

/// The text of a source has no bar, and no two sources share theirs.
proof fn lemma_source_text()
    ensures
        !source_text(Source::WellsFargo).contains('|'),
        !source_text(Source::Amex).contains('|'),
        source_text(Source::WellsFargo) != source_text(Source::Amex),
{
    reveal_strlit("wells_fargo");
    reveal_strlit("amex");
    assert("wells_fargo"@.len() != "amex"@.len());
}

/// The payload leaves nothing to chance: transactions with the same payload
/// have the same source, date, amount and description, whatever characters the
/// description holds.
pub proof fn payload_tells_transactions_apart(s: TransactionModel, t: TransactionModel)
    requires
        date::valid_date(s.txn_date.0, s.txn_date.1, s.txn_date.2),
        date::valid_date(t.txn_date.0, t.txn_date.1, t.txn_date.2),
        payload(s) == payload(t),
    ensures
        s.source == t.source,
        s.txn_date == t.txn_date,
        s.amount_cents == t.amount_cents,
        s.description == t.description,
{
    let (d, e) = (s.txn_date, t.txn_date);
    let bar = seq!['|'];
    let (date_s, date_t) = (date::iso_text(d.0, d.1, d.2), date::iso_text(e.0, e.1, e.2));
    let (cents_s, cents_t) = (
        numeral::signed_decimal(s.amount_cents),
        numeral::signed_decimal(t.amount_cents),
    );
    let (tail_s, tail_t) = (cents_s + bar + s.description, cents_t + bar + t.description);
    lemma_source_text();
    date::iso_text_has_no_bar(d.0, d.1, d.2);
    date::iso_text_has_no_bar(e.0, e.1, e.2);
    lemma_numeral_has_no_bar(s.amount_cents);
    lemma_numeral_has_no_bar(t.amount_cents);
    assert(payload(s) =~= source_text(s.source) + bar + (date_s + bar + tail_s));
    assert(payload(t) =~= source_text(t.source) + bar + (date_t + bar + tail_t));
    lemma_split_at_bar(
        source_text(s.source),
        date_s + bar + tail_s,
        source_text(t.source),
        date_t + bar + tail_t,
    );
    lemma_split_at_bar(date_s, tail_s, date_t, tail_t);
    lemma_split_at_bar(cents_s, s.description, cents_t, t.description);
    date::iso_text_injective(d.0, d.1, d.2, e.0, e.1, e.2);
    numeral::signed_decimal_injective(s.amount_cents, t.amount_cents);
}

/// Bytes with the same hexadecimal text are the same.
proof fn lemma_hex_text_injective(a: Seq<u8>, b: Seq<u8>)
    requires
        digest::hex_text(a) == digest::hex_text(b),
    ensures
        a == b,
{
    let (x, y) = (digest::hex_text(a), digest::hex_text(b));
    assert(x.len() == 2 * a.len() && y.len() == 2 * b.len());
    assert forall|i: int| 0 <= i < a.len() implies a[i] == b[i] by {
        assert(x[2 * i] == digest::hex_digit(a[i] as int / 16));
        assert(y[2 * i] == digest::hex_digit(b[i] as int / 16));
        assert(x[2 * i + 1] == digest::hex_digit(a[i] as int % 16));
        assert(y[2 * i + 1] == digest::hex_digit(b[i] as int % 16));
    }
    assert(a =~= b);
}

/// Transactions with the same fingerprint have the same source, date, amount
/// and description, unless the digests of their payloads collide.
pub proof fn fingerprint_tells_transactions_apart(s: TransactionModel, t: TransactionModel)
    requires
        date::valid_date(s.txn_date.0, s.txn_date.1, s.txn_date.2),
        date::valid_date(t.txn_date.0, t.txn_date.1, t.txn_date.2),
        fingerprint(s) == fingerprint(t),
        ({
            let a = vstd::utf8::encode_utf8(payload(s));
            let b = vstd::utf8::encode_utf8(payload(t));
            digest::sha256(a) == digest::sha256(b) ==> a == b
        }),
    ensures
        s.source == t.source,
        s.txn_date == t.txn_date,
        s.amount_cents == t.amount_cents,
        s.description == t.description,
{
    let a = vstd::utf8::encode_utf8(payload(s));
    let b = vstd::utf8::encode_utf8(payload(t));
    lemma_hex_text_injective(digest::sha256(a), digest::sha256(b));
    vstd::utf8::encode_utf8_decode_utf8(payload(s));
    vstd::utf8::encode_utf8_decode_utf8(payload(t));
    payload_tells_transactions_apart(s, t);
}

/// The fingerprint goes by source, date, amount and description alone: who the
/// card belongs to makes no difference.
pub proof fn fingerprint_ignores_card_member(s: TransactionModel, t: TransactionModel)
    requires
        s.source == t.source,
        s.txn_date == t.txn_date,
        s.amount_cents == t.amount_cents,
        s.description == t.description,
    ensures
        fingerprint(s) == fingerprint(t),
{
}

} // verus!
