//! The load generator's logic: the message lines it sends, and the tally a
//! client keeps of lines sent and failures.
use rand::rngs::StdRng;
use rand::Rng;
use vstd::prelude::*;
use vstd::string::*;

use crate::message::{entry_type_name, EntryType};

verus! {

#[verifier::external_type_specification]
#[verifier::external_body]
pub struct ExStdRng(StdRng);

/// `Rng::gen_range` over `low..high`: some value of the half-open range.
#[verifier::external_body]
fn draw_in_range(rng: &mut StdRng, low: u64, high: u64) -> (r: u64)
    requires
        low < high,
    ensures
        low <= r < high,
{
    rng.gen_range(low..high)
}

/// The character of decimal digit `d`.
pub open spec fn digit_char(d: nat) -> char {
    (d + 48) as char
}

/// The decimal numeral of `n`, without leading zeros.
pub open spec fn decimal(n: nat) -> Seq<char>
    decreases n,
{
    if n < 10 {
        seq![digit_char(n)]
    } else {
        decimal(n / 10).push(digit_char(n % 10))
    }
}

/// The decimal numeral of `n`, left-padded with zeros to at least `width`
/// characters.
pub open spec fn zero_padded(n: nat, width: nat) -> Seq<char> {
    let digits = decimal(n);
    if digits.len() >= width {
        digits
    } else {
        Seq::new((width - digits.len()) as nat, |_i: int| '0') + digits
    }
}

/// An amount of hundredths written with two decimals, as `123.45`.
pub open spec fn amount_text(cents: nat) -> Seq<char> {
    decimal(cents / 100) + "."@ + seq![digit_char((cents % 100) / 10), digit_char(cents % 10)]
}

/// The account id that the generator uses for account number `n`.
pub open spec fn account_label(n: nat) -> Seq<char> {
    "acc_"@ + zero_padded(n, 4)
}

/// The JSON text of one generated message.
pub open spec fn entry_json_text(account_number: nat, amount_cents: nat, t: EntryType) -> Seq<char> {
    "{\"timestamp\":\"2024-01-15T09:30:00Z\",\"account_id\":\""@ + account_label(account_number)
        + "\",\"amount\":"@ + amount_text(amount_cents) + ",\"type\":\""@ + entry_type_name(t)
        + "\",\"currency\":\"USD\"}"@
}

/// No character of `s` is a line break.
pub open spec fn has_no_newline(s: Seq<char>) -> bool {
    forall|i: int| 0 <= i < s.len() ==> s[i] != '\n'
}

proof fn lemma_concat_no_newline(a: Seq<char>, b: Seq<char>)
    requires
        has_no_newline(a),
        has_no_newline(b),
    ensures
        has_no_newline(a + b),
{
    assert forall|i: int| 0 <= i < (a + b).len() implies (a + b)[i] != '\n' by {
        if i < a.len() {
            assert((a + b)[i] == a[i]);
        } else {
            assert((a + b)[i] == b[i - a.len()]);
        }
    }
}

proof fn lemma_decimal_no_newline(n: nat)
    ensures
        has_no_newline(decimal(n)),
    decreases n,
{
    if n >= 10 {
        lemma_decimal_no_newline(n / 10);
        lemma_concat_no_newline(decimal(n / 10), seq![digit_char(n % 10)]);
        assert(decimal(n) =~= decimal(n / 10) + seq![digit_char(n % 10)]);
    }
}

/// A generated message is a single line: its text holds no line break, so
/// a newline after it ends exactly one message.
pub proof fn lemma_entry_json_one_line(account_number: nat, amount_cents: nat, t: EntryType)
    ensures
        has_no_newline(entry_json_text(account_number, amount_cents, t)),
{
    reveal_strlit("{\"timestamp\":\"2024-01-15T09:30:00Z\",\"account_id\":\"");
    reveal_strlit("acc_");
    reveal_strlit("\",\"amount\":");
    reveal_strlit(".");
    reveal_strlit(",\"type\":\"");
    reveal_strlit("\",\"currency\":\"USD\"}");
    reveal_strlit("deposit");
    reveal_strlit("withdrawal");
    reveal_strlit("transfer");
    reveal_strlit("fee");
    lemma_decimal_no_newline(account_number);
    lemma_decimal_no_newline(amount_cents / 100);
    let digits = decimal(account_number);
    let padded = zero_padded(account_number, 4);
    if digits.len() < 4 {
        let zeros = Seq::new((4 - digits.len()) as nat, |_i: int| '0');
        assert(has_no_newline(zeros));
        lemma_concat_no_newline(zeros, digits);
    }
    assert(has_no_newline(padded));
    let label = "acc_"@;
    assert(has_no_newline(label));
    lemma_concat_no_newline(label, padded);
    let tail = seq![digit_char((amount_cents % 100) / 10), digit_char(amount_cents % 10)];
    assert(has_no_newline(tail));
    assert(has_no_newline("."@));
    lemma_concat_no_newline(decimal(amount_cents / 100), "."@);
    lemma_concat_no_newline(decimal(amount_cents / 100) + "."@, tail);
    let p0 = "{\"timestamp\":\"2024-01-15T09:30:00Z\",\"account_id\":\""@;
    let p1 = "\",\"amount\":"@;
    let p2 = ",\"type\":\""@;
    let p3 = "\",\"currency\":\"USD\"}"@;
    assert(has_no_newline(p0));
    assert(has_no_newline(p1));
    assert(has_no_newline(p2));
    assert(has_no_newline(p3));
    assert(has_no_newline(entry_type_name(t)));
    let s1 = p0 + account_label(account_number);
    lemma_concat_no_newline(p0, account_label(account_number));
    lemma_concat_no_newline(s1, p1);
    lemma_concat_no_newline(s1 + p1, amount_text(amount_cents));
    lemma_concat_no_newline(s1 + p1 + amount_text(amount_cents), p2);
    lemma_concat_no_newline(s1 + p1 + amount_text(amount_cents) + p2, entry_type_name(t));
    lemma_concat_no_newline(s1 + p1 + amount_text(amount_cents) + p2 + entry_type_name(t), p3);
}

/// Whether `c` is one of the ASCII digits `0` to `9`.
pub open spec fn is_digit(c: char) -> bool {
    48 <= (c as int) <= 57
}

/// The value of an ASCII digit character.
pub open spec fn digit_value(c: char) -> int {
    (c as int) - 48
}

/// The number that a string of decimal digits denotes, most significant
/// digit first.
pub open spec fn decimal_value(s: Seq<char>) -> int
    decreases s.len(),
{
    if s.len() == 0 {
        0
    } else {
        decimal_value(s.drop_last()) * 10 + digit_value(s.last())
    }
}

/// Whether every character of `s` is a digit.
pub open spec fn all_digits(s: Seq<char>) -> bool {
    forall|i: int| 0 <= i < s.len() ==> is_digit(#[trigger] s[i])
}

/// The numeral written for `n` reads back as `n`: it is made of ASCII
/// digits, is not empty, has no leading zero unless it is `0` itself, and
/// its digits, read in base ten, give `n` back.
pub proof fn lemma_decimal_reads_back(n: nat)
    ensures
        all_digits(decimal(n)),
        decimal(n).len() >= 1,
        n < 10 <==> decimal(n).len() == 1,
        decimal(n).len() > 1 ==> decimal(n)[0] != '0',
        decimal_value(decimal(n)) == n,
    decreases n,
{
    if n < 10 {
        assert(decimal(n).drop_last() =~= Seq::<char>::empty());
        assert(digit_value(digit_char(n)) == n);
        assert(decimal_value(decimal(n)) == decimal_value(decimal(n).drop_last()) * 10
            + digit_value(decimal(n).last()));
    } else {
        lemma_decimal_reads_back(n / 10);
        let s = decimal(n);
        assert(s.drop_last() =~= decimal(n / 10));
        assert(s.last() == digit_char((n % 10) as nat));
        assert(digit_value(digit_char((n % 10) as nat)) == n % 10);
        assert(decimal_value(s) == decimal_value(s.drop_last()) * 10 + digit_value(s.last()));
        assert(s[0] == decimal(n / 10)[0]);
        if n / 10 < 10 {
            assert(decimal(n / 10)[0] == digit_char((n / 10) as nat));
            assert(digit_value(digit_char((n / 10) as nat)) == n / 10);
        }
        assert(forall|i: int| 0 <= i < s.len() - 1 ==> s[i] == decimal(n / 10)[i]);
        assert(is_digit(s[s.len() - 1]));
    }
}

/// Leading zeros do not change the value of a numeral.
proof fn lemma_leading_zeros(zeros: Seq<char>, s: Seq<char>)
    requires
        forall|i: int| 0 <= i < zeros.len() ==> #[trigger] zeros[i] == '0',
    ensures
        decimal_value(zeros + s) == decimal_value(s),
    decreases s.len(),
{
    if s.len() == 0 {
        assert(zeros + s =~= zeros);
        lemma_zeros_value(zeros);
    } else {
        assert((zeros + s).drop_last() =~= zeros + s.drop_last());
        lemma_leading_zeros(zeros, s.drop_last());
    }
}

proof fn lemma_zeros_value(zeros: Seq<char>)
    requires
        forall|i: int| 0 <= i < zeros.len() ==> #[trigger] zeros[i] == '0',
    ensures
        decimal_value(zeros) == 0,
    decreases zeros.len(),
{
    if zeros.len() > 0 {
        lemma_zeros_value(zeros.drop_last());
    }
}

/// A zero-padded numeral has at least the requested width, is made of
/// digits, and reads back as the number it was written for.
pub proof fn lemma_zero_padded_reads_back(n: nat, width: nat)
    ensures
        all_digits(zero_padded(n, width)),
        zero_padded(n, width).len() >= width,
        decimal_value(zero_padded(n, width)) == n,
{
    lemma_decimal_reads_back(n);
    let digits = decimal(n);
    if digits.len() < width {
        let zeros = Seq::new((width - digits.len()) as nat, |_i: int| '0');
        lemma_leading_zeros(zeros, digits);
        assert forall|i: int| 0 <= i < (zeros + digits).len() implies is_digit(
            #[trigger] (zeros + digits)[i],
        ) by {
            if i >= zeros.len() {
                assert((zeros + digits)[i] == digits[i - zeros.len()]);
            }
        }
    }
}

/// A written amount reads back as the amount: the digits before the point
/// give the whole units, the point is followed by exactly two digits, and
/// those give the hundredths.
pub proof fn lemma_amount_text_reads_back(cents: nat)
    ensures
        ({
            let t = amount_text(cents);
            &&& t.len() >= 4
            &&& t[t.len() - 3] == '.'
            &&& all_digits(t.subrange(0, t.len() - 3))
            &&& all_digits(t.subrange(t.len() - 2, t.len() as int))
            &&& decimal_value(t.subrange(0, t.len() - 3)) == cents / 100
            &&& decimal_value(t.subrange(t.len() - 2, t.len() as int)) == cents % 100
            &&& decimal_value(t.subrange(0, t.len() - 3)) * 100 + decimal_value(
                t.subrange(t.len() - 2, t.len() as int),
            ) == cents
        }),
{
    reveal_strlit(".");
    lemma_decimal_reads_back(cents / 100);
    let whole = decimal(cents / 100);
    let tens = digit_char((cents % 100) / 10);
    let ones = digit_char(cents % 10);
    let t = amount_text(cents);
    assert(t =~= whole + seq!['.'] + seq![tens, ones]);
    assert(t.subrange(0, t.len() - 3) =~= whole);
    let frac = t.subrange(t.len() - 2, t.len() as int);
    assert(frac =~= seq![tens, ones]);
    assert(frac.drop_last() =~= seq![tens]);
    assert(frac.drop_last().drop_last() =~= Seq::<char>::empty());
    assert(digit_value(tens) == (cents % 100) / 10);
    assert(digit_value(ones) == cents % 10);
    assert(decimal_value(frac.drop_last().drop_last()) == 0);
    assert(frac.drop_last().last() == tens);
    assert(decimal_value(frac.drop_last()) == decimal_value(frac.drop_last().drop_last()) * 10
        + digit_value(tens));
    assert(frac.last() == ones);
    assert(decimal_value(frac) == decimal_value(frac.drop_last()) * 10 + digit_value(ones));
}

/// The entry types in the order the generator indexes them.
pub open spec fn type_at(i: nat) -> EntryType {
    if i == 0 {
        EntryType::Deposit
    } else if i == 1 {
        EntryType::Withdrawal
    } else if i == 2 {
        EntryType::Transfer
    } else {
        EntryType::Fee
    }
}

/// Appends the digit `d`.
fn push_digit(s: &mut String, d: u64)
    requires
        d < 10,
    ensures
        final(s)@ == old(s)@.push(digit_char(d as nat)),
{
    let text: &str = if d == 0 {
        proof { reveal_strlit("0"); }
        "0"
    } else if d == 1 {
        proof { reveal_strlit("1"); }
        "1"
    } else if d == 2 {
        proof { reveal_strlit("2"); }
        "2"
    } else if d == 3 {
        proof { reveal_strlit("3"); }
        "3"
    } else if d == 4 {
        proof { reveal_strlit("4"); }
        "4"
    } else if d == 5 {
        proof { reveal_strlit("5"); }
        "5"
    } else if d == 6 {
        proof { reveal_strlit("6"); }
        "6"
    } else if d == 7 {
        proof { reveal_strlit("7"); }
        "7"
    } else if d == 8 {
        proof { reveal_strlit("8"); }
        "8"
    } else {
        proof { reveal_strlit("9"); }
        "9"
    };
    assert(text@ =~= seq![digit_char(d as nat)]);
    s.append(text);
    assert(s@ =~= old(s)@.push(digit_char(d as nat)));
}

/// Appends the decimal numeral of `n`.
fn push_decimal(s: &mut String, n: u64)
    ensures
        final(s)@ == old(s)@ + decimal(n as nat),
    decreases n,
{
    if n >= 10 {
        push_decimal(s, n / 10);
    }
    push_digit(s, n % 10);
    assert(s@ =~= old(s)@ + decimal(n as nat));
}

/// The number of digits of `n`.
fn decimal_len(n: u64) -> (r: u64)
    ensures
        r == decimal(n as nat).len(),
        1 <= r <= n + 1,
    decreases n,
{
    if n < 10 {
        1
    } else {
        let rest: u64 = decimal_len(n / 10);
        rest + 1
    }
}

/// Appends the decimal numeral of `n` padded with zeros to `width`.
fn push_zero_padded(s: &mut String, n: u64, width: u64)
    ensures
        final(s)@ == old(s)@ + zero_padded(n as nat, width as nat),
{
    let digits: u64 = decimal_len(n);
    let mut i: u64 = digits;
    while i < width
        invariant
            digits <= i,
            digits == decimal(n as nat).len(),
            i <= width || i == digits,
            s@ == old(s)@ + Seq::new((i - digits) as nat, |_j: int| '0'),
        decreases width - i,
    {
        proof { reveal_strlit("0"); }
        s.append("0");
        assert(s@ =~= old(s)@ + Seq::new((i + 1 - digits) as nat, |_j: int| '0'));
        i = i + 1;
    }
    if digits == i {
        assert(s@ =~= old(s)@);
    }
    push_decimal(s, n);
    if width > digits {
        assert(s@ =~= old(s)@ + (Seq::new((width - digits) as nat, |_j: int| '0') + decimal(
            n as nat,
        )));
    } else {
        assert(s@ =~= old(s)@ + decimal(n as nat));
    }
}

/// The entry type at index `i` of the generator's list (deposit, withdrawal,
/// transfer, fee).
pub fn entry_type_at(i: u64) -> (t: EntryType)
    requires
        i < 4,
    ensures
        t == type_at(i as nat),
{
    if i == 0 {
        EntryType::Deposit
    } else if i == 1 {
        EntryType::Withdrawal
    } else if i == 2 {
        EntryType::Transfer
    } else {
        EntryType::Fee
    }
}

/// One generated message: account `acc_NNNN` for `account_number`, the
/// amount written with two decimals, and the fixed timestamp and currency.
pub fn entry_json(account_number: u64, amount_cents: u64, entry_type: EntryType) -> (r: String)
    ensures
        r@ == entry_json_text(account_number as nat, amount_cents as nat, entry_type),
{
    let mut s: String = String::new();
    s.append("{\"timestamp\":\"2024-01-15T09:30:00Z\",\"account_id\":\"");
    s.append("acc_");
    push_zero_padded(&mut s, account_number, 4);
    s.append("\",\"amount\":");
    push_decimal(&mut s, amount_cents / 100);
    s.append(".");
    push_digit(&mut s, (amount_cents % 100) / 10);
    push_digit(&mut s, amount_cents % 10);
    s.append(",\"type\":\"");
    s.append(entry_type.name());
    s.append("\",\"currency\":\"USD\"}");
    assert(s@ =~= entry_json_text(account_number as nat, amount_cents as nat, entry_type));
    s
}

/// A random message: one of a thousand accounts, an amount between 10.00
/// and 50000.00, and one of the four entry types.
pub fn make_entry_json(rng: &mut StdRng) -> (r: String)
    ensures
        exists|account_number: nat, amount_cents: nat, i: nat|
            account_number < 1000 && 1000 <= amount_cents <= 5_000_000 && i < 4 && r@
                == entry_json_text(account_number, amount_cents, type_at(i)),
        has_no_newline(r@),
{
    let account_number: u64 = draw_in_range(rng, 0, 1000);
    let amount_cents: u64 = draw_in_range(rng, 1000, 5_000_001);
    let index: u64 = draw_in_range(rng, 0, 4);
    let entry_type = entry_type_at(index);
    let r = entry_json(account_number, amount_cents, entry_type);
    assert(r@ == entry_json_text(account_number as nat, amount_cents as nat, type_at(index as nat)));
    proof {
        lemma_entry_json_one_line(account_number as nat, amount_cents as nat, entry_type);
    }
    r
}

/// The errors a client counts when it cannot connect: one for a timed run,
/// one per planned message otherwise.
pub fn errors_when_unreachable(messages: usize, duration_secs: Option<u64>) -> (r: u64)
    ensures
        r == (if duration_secs.is_some() {
            1
        } else {
            messages as int
        }),
{
    if duration_secs.is_some() {
        1
    } else {
        messages as u64
    }
}

/// The counts after one write: a written line is one more sent, a failed
/// write one more error.
pub open spec fn after_write(sent: nat, errors: nat, written: bool) -> (nat, nat) {
    if written {
        (sent + 1, errors)
    } else {
        (sent, errors + 1)
    }
}

/// Whether a client writes another line: in a timed run (`duration_secs`
/// given) while time is left, otherwise while fewer than `messages` lines
/// have been written.
pub open spec fn wants_more(sent: nat, messages: nat, duration_secs: Option<u64>, time_left: bool) -> bool {
    match duration_secs {
        Some(_) => time_left,
        None => sent < messages,
    }
}

/// In a timed run the clock alone decides: once the time is up no further
/// line is written, however many lines were sent or planned, and while time
/// is left the client writes on.
pub proof fn lemma_timed_run_follows_clock(sent: nat, messages: nat, duration_secs: u64)
    ensures
        !wants_more(sent, messages, Some(duration_secs), false),
        wants_more(sent, messages, Some(duration_secs), true),
{
}

/// In a run with a planned number of messages the clock plays no part: the
/// client writes exactly until that many lines are sent.
pub proof fn lemma_counted_run_ignores_clock(sent: nat, messages: nat, time_left: bool)
    ensures
        wants_more(sent, messages, None, time_left) <==> sent < messages,
        wants_more(sent, messages, None, time_left) == wants_more(sent, messages, None, !time_left),
{
}

/// The counts `(sent, errors)` at the end of the write loop of a run with a
/// planned number of messages, from the counts `t`, when the successive
/// writes succeed or fail as `outcomes` says: the loop writes while the
/// client wants another line and stops after the first failure.
pub open spec fn counted_run(t: (nat, nat), messages: nat, outcomes: Seq<bool>) -> (nat, nat)
    decreases outcomes.len(),
{
    if outcomes.len() == 0 || !wants_more(t.0, messages, None, false) {
        t
    } else if outcomes[0] {
        counted_run(after_write(t.0, t.1, true), messages, outcomes.drop_first())
    } else {
        after_write(t.0, t.1, false)
    }
}

/// A client with a planned number of messages never sends more than that,
/// and its writes (each counted as sent or failed) are at most that many,
/// so with the final flush its sent and error counts add up to at most one
/// more: whatever the writes and the flush return.
pub proof fn lemma_counted_run_bounds(messages: nat, outcomes: Seq<bool>, flushed: bool)
    ensures
        counted_run((0, 0), messages, outcomes).0 <= messages,
        counted_run((0, 0), messages, outcomes).0 + counted_run((0, 0), messages, outcomes).1 <= messages,
        counted_run((0, 0), messages, outcomes).0 + counted_run((0, 0), messages, outcomes).1 + (if flushed {
            0int
        } else {
            1int
        }) <= messages + 1,
{
    lemma_counted_run_from(0, messages, outcomes);
}

/// From `sent` lines and no error, a counted run ends with at most
/// `messages` writes in all.
proof fn lemma_counted_run_from(sent: nat, messages: nat, outcomes: Seq<bool>)
    requires
        sent <= messages,
    ensures
        counted_run((sent, 0), messages, outcomes).0 <= messages,
        counted_run((sent, 0), messages, outcomes).0 + counted_run((sent, 0), messages, outcomes).1 <= messages,
    decreases outcomes.len(),
{
    if outcomes.len() > 0 && sent < messages && outcomes[0] {
        lemma_counted_run_from(sent + 1, messages, outcomes.drop_first());
    }
}

/// One more write after successful ones, while the run wants more lines,
/// is one more step of the counted run.
proof fn lemma_counted_run_push(t: (nat, nat), messages: nat, outcomes: Seq<bool>, written: bool)
    requires
        forall|i: int| 0 <= i < outcomes.len() ==> #[trigger] outcomes[i],
        t.0 + outcomes.len() < messages,
    ensures
        counted_run(t, messages, outcomes.push(written)) == after_write(
            t.0 + outcomes.len(),
            t.1,
            written,
        ),
    decreases outcomes.len(),
{
    let longer = outcomes.push(written);
    if outcomes.len() == 0 {
        assert(longer.drop_first() =~= Seq::<bool>::empty());
        assert(longer[0] == written);
        let next = after_write(t.0, t.1, true);
        assert(counted_run(next, messages, Seq::<bool>::empty()) == next);
        assert(counted_run(next, messages, longer.drop_first()) == next);
    } else {
        let rest = outcomes.drop_first();
        assert(longer.drop_first() =~= rest.push(written));
        assert(longer[0] == outcomes[0]);
        assert forall|i: int| 0 <= i < rest.len() implies #[trigger] rest[i] by {
            assert(rest[i] == outcomes[i + 1]);
        }
        lemma_counted_run_push(after_write(t.0, t.1, true), messages, rest, written);
        assert(counted_run(t, messages, longer) == counted_run(
            after_write(t.0, t.1, true),
            messages,
            longer.drop_first(),
        ));
    }
}

/// The abstract state of a client's run.
pub struct ClientTallyView {
    pub sent: nat,
    pub errors: nat,
    /// The planned number of messages, for a run without a duration.
    pub messages: nat,
    pub duration_secs: Option<u64>,
    /// Whether a write has failed, which ends the run.
    pub stopped: bool,
    /// The outcomes of the writes so far, in order.
    pub outcomes: Seq<bool>,
}

/// One client's run: its plan (a number of messages, or a duration), the
/// lines it has written and the failures it has met.
pub struct ClientTally {
    sent: u64,
    errors: u64,
    messages: usize,
    duration_secs: Option<u64>,
    stopped: bool,
    outcomes: Ghost<Seq<bool>>,
}

impl View for ClientTally {
    type V = ClientTallyView;

    closed spec fn view(&self) -> ClientTallyView {
        ClientTallyView {
            sent: self.sent as nat,
            errors: self.errors as nat,
            messages: self.messages as nat,
            duration_secs: self.duration_secs,
            stopped: self.stopped,
            outcomes: self.outcomes@,
        }
    }
}

impl ClientTally {
    /// Every write before the last one succeeded; the run stops after the
    /// first failure; and a counted run is the model `counted_run` of its
    /// write outcomes, never past its plan.
    #[verifier::type_invariant]
    closed spec fn consistent(self) -> bool {
        let outcomes = self.outcomes@;
        &&& !self.stopped ==> {
            &&& forall|i: int| 0 <= i < outcomes.len() ==> #[trigger] outcomes[i]
            &&& self.sent == outcomes.len()
            &&& self.errors == 0
        }
        &&& self.stopped ==> {
            &&& outcomes.len() > 0
            &&& forall|i: int| 0 <= i < outcomes.len() - 1 ==> #[trigger] outcomes[i]
            &&& !outcomes[outcomes.len() - 1]
            &&& self.sent == outcomes.len() - 1
            &&& self.errors == 1
        }
        &&& self.duration_secs is None ==> {
            &&& self.sent <= self.messages
            &&& self.stopped ==> self.sent < self.messages
            &&& (self.sent as nat, self.errors as nat) == counted_run(
                (0, 0),
                self.messages as nat,
                outcomes,
            )
        }
    }

    /// A run with nothing written yet, planned for `messages` lines or, when
    /// `duration_secs` is given, for that many seconds.
    pub fn new(messages: usize, duration_secs: Option<u64>) -> (r: ClientTally)
        ensures
            r@ == (ClientTallyView {
                sent: 0,
                errors: 0,
                messages: messages as nat,
                duration_secs,
                stopped: false,
                outcomes: Seq::empty(),
            }),
    {
        ClientTally {
            sent: 0,
            errors: 0,
            messages,
            duration_secs,
            stopped: false,
            outcomes: Ghost(Seq::empty()),
        }
    }

    /// Lines written so far.
    pub fn sent(&self) -> (r: u64)
        ensures
            r == self@.sent,
    {
        self.sent
    }

    /// Failed writes so far.
    pub fn errors(&self) -> (r: u64)
        ensures
            r == self@.errors,
    {
        self.errors
    }

    /// Whether to write another line: never after a failed write; in a
    /// timed run while time is left, otherwise while fewer than the planned
    /// number of lines have been written.
    pub fn wants_another(&self, time_left: bool) -> (r: bool)
        ensures
            r == (!self@.stopped && wants_more(
                self@.sent,
                self@.messages,
                self@.duration_secs,
                time_left,
            )),
            self@.duration_secs is Some ==> (r <==> !self@.stopped && time_left),
            self@.duration_secs is None ==> (r <==> !self@.stopped && self@.sent < self@.messages),
    {
        if self.stopped {
            false
        } else {
            match self.duration_secs {
                Some(_) => time_left,
                None => self.sent < self.messages as u64,
            }
        }
    }

    /// Records the outcome of one write, made when the run wanted another
    /// line; the run goes on only after a successful write.
    pub fn record_write(&mut self, written: bool) -> (keep_going: bool)
        requires
            !old(self)@.stopped,
            old(self)@.duration_secs is None ==> old(self)@.sent < old(self)@.messages,
            written ==> old(self)@.sent < u64::MAX,
        ensures
            keep_going == written,
            (final(self)@.sent, final(self)@.errors) == after_write(
                old(self)@.sent,
                old(self)@.errors,
                written,
            ),
            final(self)@.outcomes == old(self)@.outcomes.push(written),
            final(self)@.stopped == !written,
            final(self)@.messages == old(self)@.messages,
            final(self)@.duration_secs == old(self)@.duration_secs,
    {
        proof {
            use_type_invariant(&*self);
        }
        let ghost outcomes = self.outcomes@;
        let ghost longer = outcomes.push(written);
        proof {
            if self.duration_secs is None {
                lemma_counted_run_push((0, 0), self.messages as nat, outcomes, written);
            }
            assert forall|i: int| 0 <= i < longer.len() - 1 implies #[trigger] longer[i] by {
                assert(longer[i] == outcomes[i]);
            }
        }
        let (sent, errors): (u64, u64) = if written {
            (self.sent + 1, self.errors)
        } else {
            (self.sent, self.errors + 1)
        };
        *self = ClientTally {
            sent,
            errors,
            messages: self.messages,
            duration_secs: self.duration_secs,
            stopped: !written,
            outcomes: Ghost(longer),
        };
        written
    }

    /// Ends the run with the outcome of the final flush (a failed flush is
    /// one more error) and returns the counts `(sent, errors)`. A counted run
    /// has followed the model `counted_run`, so it never sent more than
    /// planned and its writes, with the flush, are at most one more than
    /// planned.
    pub fn finish(self, flushed: bool) -> (r: (u64, u64))
        ensures
            r.0 == self@.sent,
            r.1 == self@.errors + (if flushed {
                0int
            } else {
                1int
            }),
            self@.duration_secs is None ==> (self@.sent, self@.errors) == counted_run(
                (0, 0),
                self@.messages,
                self@.outcomes,
            ),
            self@.duration_secs is None ==> r.0 <= self@.messages && r.0 + r.1 <= self@.messages + 1,
    {
        proof {
            use_type_invariant(&self);
        }
        if flushed {
            (self.sent, self.errors)
        } else {
            (self.sent, self.errors + 1)
        }
    }
}

} // verus!
