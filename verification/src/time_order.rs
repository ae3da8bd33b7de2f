use vstd::prelude::*;
use crate::calendar::{
    civil_date, days_before_month, days_before_year, days_from_civil, days_in_month, is_leap_year,
    is_valid_date, lemma_civil_date_correct, lemma_days_before_year_step,
};
use crate::order::{lex_le, lex_lt};
use crate::text::{decimal, digit_char, padded_decimal};
use crate::utils::{iso_timestamp, ymdhms};

verus! {

/// `10^w`.
spec fn pow10(w: nat) -> nat
    decreases w,
{
    if w == 0 {
        1
    } else {
        10 * pow10((w - 1) as nat)
    }
}

/// The last `w` decimal digits of `n`, most significant first.
spec fn fixed_digits(n: nat, w: nat) -> Seq<char>
    decreases w,
{
    if w == 0 {
        Seq::empty()
    } else {
        fixed_digits(n / 10, (w - 1) as nat).push(digit_char(n % 10))
    }
}

proof fn lemma_fixed_digits_len(n: nat, w: nat)
    ensures
        fixed_digits(n, w).len() == w,
    decreases w,
{
    if w > 0 {
        lemma_fixed_digits_len(n / 10, (w - 1) as nat);
    }
}

proof fn lemma_decimal_short(n: nat, w: nat)
    requires
        w >= 1,
        n < pow10(w),
    ensures
        decimal(n).len() <= w,
    decreases w,
{
    if n >= 10 {
        assert(w >= 2) by {
            if w == 1 {
                assert(pow10(1) == 10 * pow10(0));
            }
        }
        assert(pow10(w) == 10 * pow10((w - 1) as nat));
        assert(n / 10 < pow10((w - 1) as nat));
        lemma_decimal_short(n / 10, (w - 1) as nat);
    }
}

/// Zero-padding a number below `10^w` to `w` characters writes its last `w`
/// digits.
proof fn lemma_padded_is_fixed(n: nat, w: nat)
    requires
        w >= 1,
        n < pow10(w),
    ensures
        padded_decimal(n, w) == fixed_digits(n, w),
    decreases w,
{
    lemma_decimal_short(n, w);
    assert(pow10(w) == 10 * pow10((w - 1) as nat));
    if w == 1 {
        assert(n < 10);
        assert(fixed_digits(n / 10, 0) =~= Seq::<char>::empty());
        assert(padded_decimal(n, w) =~= fixed_digits(n, w));
    } else if n < 10 {
        assert(n / 10 == 0 && n % 10 == n);
        lemma_padded_is_fixed(0, (w - 1) as nat);
        assert(padded_decimal(0, (w - 1) as nat) =~= Seq::new((w - 2) as nat, |i: int| '0') + seq!['0']);
        assert(padded_decimal(n, w) =~= Seq::new((w - 1) as nat, |i: int| '0') + seq![digit_char(n)]);
        assert(padded_decimal(n, w) =~= fixed_digits(n, w));
    } else {
        assert(n / 10 < pow10((w - 1) as nat));
        lemma_padded_is_fixed(n / 10, (w - 1) as nat);
        lemma_decimal_short(n / 10, (w - 1) as nat);
        let dn = decimal(n / 10);
        assert(decimal(n) == dn.push(digit_char(n % 10)));
        if dn.len() >= w - 1 {
            assert(padded_decimal(n, w) =~= dn.push(digit_char(n % 10)));
        } else {
            assert(padded_decimal(n, w) =~= Seq::new((w - 1 - dn.len()) as nat, |i: int| '0') + dn.push(
                digit_char(n % 10),
            ));
            assert(padded_decimal(n / 10, (w - 1) as nat) =~= Seq::new((w - 1 - dn.len()) as nat, |i: int| '0')
                + dn);
        }
        assert(padded_decimal(n, w) =~= fixed_digits(n, w));
    }
}

/// A strictly smaller head of the same length keeps the whole text smaller,
/// whatever follows.
proof fn lemma_lex_lt_head(x1: Seq<char>, x2: Seq<char>, y1: Seq<char>, y2: Seq<char>)
    requires
        x1.len() == x2.len(),
        lex_lt(x1, x2),
    ensures
        lex_lt(x1 + y1, x2 + y2),
    decreases x1.len(),
{
    if x1.len() == 0 {
        assert(x1 =~= x2);
    } else {
        assert((x1 + y1)[0] == x1[0]);
        assert((x2 + y2)[0] == x2[0]);
        if x1[0] < x2[0] {
            assert((x1 + y1) != (x2 + y2));
        } else {
            assert(x1[0] == x2[0]);
            assert(x1.drop_first() != x2.drop_first()) by {
                if x1.drop_first() == x2.drop_first() {
                    assert(x1 =~= seq![x1[0]] + x1.drop_first());
                    assert(x2 =~= seq![x2[0]] + x2.drop_first());
                }
            }
            lemma_lex_lt_head(x1.drop_first(), x2.drop_first(), y1, y2);
            assert((x1 + y1).drop_first() =~= x1.drop_first() + y1);
            assert((x2 + y2).drop_first() =~= x2.drop_first() + y2);
            assert((x1 + y1) != (x2 + y2)) by {
                if (x1 + y1) == (x2 + y2) {
                    assert((x1 + y1).drop_first() == (x2 + y2).drop_first());
                }
            }
        }
    }
}

/// Behind the same head, the order is that of what follows.
proof fn lemma_lex_lt_tail(p: Seq<char>, y1: Seq<char>, y2: Seq<char>)
    requires
        lex_lt(y1, y2),
    ensures
        lex_lt(p + y1, p + y2),
    decreases p.len(),
{
    if p.len() == 0 {
        assert(p + y1 =~= y1);
        assert(p + y2 =~= y2);
    } else {
        lemma_lex_lt_tail(p.drop_first(), y1, y2);
        assert((p + y1).drop_first() =~= p.drop_first() + y1);
        assert((p + y2).drop_first() =~= p.drop_first() + y2);
        assert((p + y1)[0] == (p + y2)[0]);
        assert((p + y1) != (p + y2)) by {
            if (p + y1) == (p + y2) {
                assert((p + y1).drop_first() == (p + y2).drop_first());
            }
        }
    }
}

proof fn lemma_digit_order(a: nat, b: nat)
    requires
        a < b < 10,
    ensures
        digit_char(a) < digit_char(b),
{
}

/// The last `w` digits order numbers below `10^w`.
proof fn lemma_fixed_digits_order(n1: nat, n2: nat, w: nat)
    requires
        n1 < n2 < pow10(w),
    ensures
        lex_lt(fixed_digits(n1, w), fixed_digits(n2, w)),
    decreases w,
{
    if w == 0 {
        assert(pow10(0) == 1);
    } else {
        assert(pow10(w) == 10 * pow10((w - 1) as nat));
        let h1 = fixed_digits(n1 / 10, (w - 1) as nat);
        let h2 = fixed_digits(n2 / 10, (w - 1) as nat);
        lemma_fixed_digits_len(n1 / 10, (w - 1) as nat);
        lemma_fixed_digits_len(n2 / 10, (w - 1) as nat);
        assert(fixed_digits(n1, w) =~= h1 + seq![digit_char(n1 % 10)]);
        assert(fixed_digits(n2, w) =~= h2 + seq![digit_char(n2 % 10)]);
        if n1 / 10 < n2 / 10 {
            lemma_fixed_digits_order(n1 / 10, n2 / 10, (w - 1) as nat);
            lemma_lex_lt_head(h1, h2, seq![digit_char(n1 % 10)], seq![digit_char(n2 % 10)]);
        } else {
            assert(n1 / 10 == n2 / 10);
            assert(n1 % 10 < n2 % 10);
            lemma_digit_order(n1 % 10, n2 % 10);
            let t1 = seq![digit_char(n1 % 10)];
            let t2 = seq![digit_char(n2 % 10)];
            assert(t1.drop_first() =~= Seq::<char>::empty());
            assert(lex_le(t1, t2));
            assert(t1 != t2) by {
                assert(t1[0] != t2[0]);
            }
            lemma_lex_lt_tail(h1, t1, t2);
        }
    }
}

/// One field of the timestamp followed by its separator and the rest.
#[verifier::opaque]
spec fn field_then(n: nat, w: nat, sep: char, rest: Seq<char>) -> Seq<char> {
    padded_decimal(n, w) + (seq![sep] + rest)
}

/// A smaller field, or the same field and a smaller rest, gives a smaller text.
proof fn lemma_field_order(n1: nat, n2: nat, w: nat, sep: char, r1: Seq<char>, r2: Seq<char>)
    requires
        w >= 1,
        n1 < pow10(w),
        n2 < pow10(w),
        n1 < n2 || (n1 == n2 && lex_lt(r1, r2)),
    ensures
        lex_lt(field_then(n1, w, sep, r1), field_then(n2, w, sep, r2)),
{
    reveal(field_then);
    lemma_padded_is_fixed(n1, w);
    lemma_padded_is_fixed(n2, w);
    lemma_fixed_digits_len(n1, w);
    lemma_fixed_digits_len(n2, w);
    if n1 < n2 {
        lemma_fixed_digits_order(n1, n2, w);
        lemma_lex_lt_head(padded_decimal(n1, w), padded_decimal(n2, w), seq![sep] + r1, seq![sep] + r2);
    } else {
        lemma_lex_lt_tail(seq![sep], r1, r2);
        lemma_lex_lt_tail(padded_decimal(n1, w), seq![sep] + r1, seq![sep] + r2);
    }
}

proof fn lemma_pow10_values()
    ensures
        pow10(2) == 100,
        pow10(4) == 10000,
        pow10(6) == 1000000,
{
    assert(pow10(0) == 1);
    assert(pow10(1) == 10);
    assert(pow10(2) == 100);
    assert(pow10(3) == 1000);
    assert(pow10(4) == 10000);
    assert(pow10(5) == 100000);
    assert(pow10(6) == 1000000);
}

proof fn lemma_days_before_year_mono(y1: int, y2: int)
    requires
        y1 <= y2,
    ensures
        days_before_year(y1) <= days_before_year(y2),
    decreases y2 - y1,
{
    if y1 < y2 {
        lemma_days_before_year_step(y1);
        lemma_days_before_year_mono(y1 + 1, y2);
    }
}

/// The days before a month and in it stay within the year, and come before
/// any later month.
proof fn lemma_month_fits(y: int, m1: int, m2: int)
    requires
        1 <= m1 < m2 <= 12,
    ensures
        days_before_month(y, m1) + days_in_month(y, m1) <= days_before_month(y, m2),
{
}

proof fn lemma_month_in_year(y: int, m: int)
    requires
        1 <= m <= 12,
    ensures
        0 <= days_before_month(y, m),
        days_before_month(y, m) + days_in_month(y, m) <= 365 + (if is_leap_year(y) { 1int } else { 0int }),
{
}

/// `(y1, m1, d1)` comes before `(y2, m2, d2)` in calendar order.
spec fn date_before(y1: int, m1: int, d1: int, y2: int, m2: int, d2: int) -> bool {
    y1 < y2 || (y1 == y2 && (m1 < m2 || (m1 == m2 && d1 < d2)))
}

/// An earlier calendar date lies fewer days after 1970-01-01.
proof fn lemma_civil_order(y1: int, m1: int, d1: int, y2: int, m2: int, d2: int)
    requires
        is_valid_date(y1, m1, d1),
        is_valid_date(y2, m2, d2),
        date_before(y1, m1, d1, y2, m2, d2),
    ensures
        days_from_civil(y1, m1, d1) < days_from_civil(y2, m2, d2),
{
    if y1 < y2 {
        lemma_month_in_year(y1, m1);
        lemma_month_in_year(y2, m2);
        lemma_days_before_year_step(y1);
        lemma_days_before_year_mono(y1 + 1, y2);
    } else if m1 < m2 {
        lemma_month_fits(y1, m1, m2);
    }
}

/// A later day number names a later calendar date.
proof fn lemma_date_of_days_order(days1: int, days2: int)
    requires
        days1 < days2,
    ensures
        date_before(
            civil_date(days1).0,
            civil_date(days1).1,
            civil_date(days1).2,
            civil_date(days2).0,
            civil_date(days2).1,
            civil_date(days2).2,
        ),
{
    let c1 = civil_date(days1);
    let c2 = civil_date(days2);
    lemma_civil_date_correct(days1);
    lemma_civil_date_correct(days2);
    if date_before(c2.0, c2.1, c2.2, c1.0, c1.1, c1.2) {
        lemma_civil_order(c2.0, c2.1, c2.2, c1.0, c1.1, c1.2);
    }
}

/// The year of any day from 1970-01-01 up to 9999-12-31 has four digits.
proof fn lemma_year_in_range(days: int)
    requires
        0 <= days < 2932897,
    ensures
        1970 <= civil_date(days).0 <= 9999,
{
    let c = civil_date(days);
    lemma_civil_date_correct(days);
    lemma_month_in_year(c.0, c.1);
    if c.0 >= 10000 {
        lemma_days_before_year_mono(10000, c.0);
        assert(days_before_year(10000) - days_before_year(1970) == 2932897);
    }
    if c.0 < 1970 {
        lemma_days_before_year_step(c.0);
        lemma_days_before_year_mono(c.0 + 1, 1970);
    }
}

/// The widths of the fields of a timestamp: year, month, day, hour, minute,
/// second and microsecond.
spec fn stamp_widths() -> Seq<nat> {
    seq![4nat, 2nat, 2nat, 2nat, 2nat, 2nat, 6nat]
}

/// The character that follows each field of a timestamp.
spec fn stamp_separators() -> Seq<char> {
    seq!['-', '-', 'T', ':', ':', '.', 'Z']
}

/// The fields from position `i` on, each zero-padded to its width and followed
/// by its separator.
spec fn fields_text(vals: Seq<nat>, widths: Seq<nat>, seps: Seq<char>, i: int) -> Seq<char>
    decreases vals.len() - i,
{
    if i < 0 || i >= vals.len() {
        Seq::empty()
    } else {
        field_then(vals[i], widths[i], seps[i], fields_text(vals, widths, seps, i + 1))
    }
}

/// `x` comes before `y` in the order of their fields from position `i` on,
/// the earlier fields weighing more.
spec fn fields_before(x: Seq<nat>, y: Seq<nat>, i: int) -> bool
    decreases x.len() - i,
{
    if i < 0 || i >= x.len() {
        false
    } else {
        x[i] < y[i] || (x[i] == y[i] && fields_before(x, y, i + 1))
    }
}

/// Fields that each fit their width keep their order in the text.
proof fn lemma_fields_text_order(x: Seq<nat>, y: Seq<nat>, widths: Seq<nat>, seps: Seq<char>, i: int)
    requires
        0 <= i,
        x.len() == y.len(),
        x.len() == widths.len(),
        x.len() == seps.len(),
        forall|j: int|
            0 <= j < x.len() ==> #[trigger] widths[j] >= 1 && x[j] < pow10(widths[j]) && y[j]
                < pow10(widths[j]),
        fields_before(x, y, i),
    ensures
        lex_lt(fields_text(x, widths, seps, i), fields_text(y, widths, seps, i)),
    decreases x.len() - i,
{
    assert(widths[i] >= 1);
    if x[i] == y[i] {
        lemma_fields_text_order(x, y, widths, seps, i + 1);
    }
    lemma_field_order(
        x[i],
        y[i],
        widths[i],
        seps[i],
        fields_text(x, widths, seps, i + 1),
        fields_text(y, widths, seps, i + 1),
    );
}

/// The fields of the instant `v` microseconds after the epoch.
spec fn instant_fields(v: int) -> Seq<nat> {
    let t = ymdhms(v / 1_000_000);
    seq![
        t.0 as nat,
        t.1 as nat,
        t.2 as nat,
        t.3 as nat,
        t.4 as nat,
        t.5 as nat,
        (v % 1_000_000) as nat,
    ]
}

/// The timestamp text is its fields, each followed by its separator.
proof fn lemma_iso_fields(v: int)
    requires
        0 < v,
    ensures
        iso_timestamp(v) == fields_text(instant_fields(v), stamp_widths(), stamp_separators(), 0),
{
    let k = instant_fields(v);
    let w = stamp_widths();
    let sp = stamp_separators();
    let t = ymdhms(v / 1_000_000);
    let f0 = padded_decimal(t.0 as nat, 4);
    let f1 = padded_decimal(t.1 as nat, 2);
    let f2 = padded_decimal(t.2 as nat, 2);
    let f3 = padded_decimal(t.3 as nat, 2);
    let f4 = padded_decimal(t.4 as nat, 2);
    let f5 = padded_decimal(t.5 as nat, 2);
    let f6 = padded_decimal((v % 1_000_000) as nat, 6);
    let r7 = fields_text(k, w, sp, 7);
    let r6 = fields_text(k, w, sp, 6);
    let r5 = fields_text(k, w, sp, 5);
    let r4 = fields_text(k, w, sp, 4);
    let r3 = fields_text(k, w, sp, 3);
    let r2 = fields_text(k, w, sp, 2);
    let r1 = fields_text(k, w, sp, 1);
    let r0 = fields_text(k, w, sp, 0);
    reveal(field_then);
    assert(r7 == Seq::<char>::empty());
    assert(r6 == f6 + (seq!['Z'] + r7));
    assert(r5 == f5 + (seq!['.'] + r6));
    assert(r4 == f4 + (seq![':'] + r5));
    assert(r3 == f3 + (seq![':'] + r4));
    assert(r2 == f2 + (seq!['T'] + r3));
    assert(r1 == f1 + (seq!['-'] + r2));
    assert(r0 == f0 + (seq!['-'] + r1));
    let l1 = f0 + seq!['-'];
    let l2 = l1 + f1;
    let l3 = l2 + seq!['-'];
    let l4 = l3 + f2;
    let l5 = l4 + seq!['T'];
    let l6 = l5 + f3;
    let l7 = l6 + seq![':'];
    let l8 = l7 + f4;
    let l9 = l8 + seq![':'];
    let l10 = l9 + f5;
    let l11 = l10 + seq!['.'];
    let l12 = l11 + f6;
    assert(iso_timestamp(v) == l12 + seq!['Z']);
    assert(seq!['Z'] + r7 =~= seq!['Z']);
    vstd::seq_lib::lemma_concat_associative(l11, f6, seq!['Z'] + r7);
    vstd::seq_lib::lemma_concat_associative(l10, seq!['.'], r6);
    vstd::seq_lib::lemma_concat_associative(l9, f5, seq!['.'] + r6);
    vstd::seq_lib::lemma_concat_associative(l8, seq![':'], r5);
    vstd::seq_lib::lemma_concat_associative(l7, f4, seq![':'] + r5);
    vstd::seq_lib::lemma_concat_associative(l6, seq![':'], r4);
    vstd::seq_lib::lemma_concat_associative(l5, f3, seq![':'] + r4);
    vstd::seq_lib::lemma_concat_associative(l4, seq!['T'], r3);
    vstd::seq_lib::lemma_concat_associative(l3, f2, seq!['T'] + r3);
    vstd::seq_lib::lemma_concat_associative(l2, seq!['-'], r2);
    vstd::seq_lib::lemma_concat_associative(l1, f1, seq!['-'] + r2);
    vstd::seq_lib::lemma_concat_associative(f0, seq!['-'], r1);
    assert(iso_timestamp(v) == l11 + r6);
    assert(l11 + r6 == l9 + r5);
    assert(l9 + r5 == l7 + r4);
    assert(l7 + r4 == l5 + r3);
    assert(l5 + r3 == l3 + r2);
    assert(l3 + r2 == l1 + r1);
    assert(l1 + r1 == r0);
}

/// Splitting the microseconds after the epoch into day, second of the day and
/// microsecond, and the second of the day into hour, minute and second.
proof fn lemma_instant_split(v: int)
    requires
        0 < v < 253_402_300_800_000_000,
    ensures
        ({
            let s = v / 1_000_000;
            let days = s / 86400;
            let q = s % 86400;
            let t = ymdhms(s);
            &&& 0 <= days < 2932897
            &&& 0 <= q < 86400
            &&& t.3 == q / 3600
            &&& t.4 == (q % 3600) / 60
            &&& t.5 == q % 60
            &&& t.0 == civil_date(days).0
            &&& t.1 == civil_date(days).1
            &&& t.2 == civil_date(days).2
        }),
{
}

/// Every field of an instant fits its width.
proof fn lemma_instant_fields_fit(v: int)
    requires
        0 < v < 253_402_300_800_000_000,
    ensures
        instant_fields(v).len() == 7,
        forall|j: int|
            0 <= j < 7 ==> #[trigger] stamp_widths()[j] >= 1 && instant_fields(v)[j] < pow10(
                stamp_widths()[j],
            ),
{
    lemma_pow10_values();
    lemma_instant_split(v);
    let days = (v / 1_000_000) / 86400;
    lemma_year_in_range(days);
    lemma_civil_date_correct(days);
    let k = instant_fields(v);
    let w = stamp_widths();
    assert forall|j: int| 0 <= j < 7 implies #[trigger] w[j] >= 1 && k[j] < pow10(w[j]) by {
        if j == 0 {
            assert(w[0] == 4);
        } else if j == 6 {
            assert(w[6] == 6);
        } else {
            assert(w[j] == 2);
        }
    }
}

/// An earlier second of the day has an earlier (hour, minute, second).
proof fn lemma_time_of_day_order(q1: int, q2: int)
    requires
        0 <= q1 < q2 < 86400,
    ensures
        q1 / 3600 < q2 / 3600 || (q1 / 3600 == q2 / 3600 && ((q1 % 3600) / 60 < (q2 % 3600) / 60
            || ((q1 % 3600) / 60 == (q2 % 3600) / 60 && q1 % 60 < q2 % 60))),
{
}

/// A later instant has later fields.
proof fn lemma_instant_fields_order(a: int, b: int)
    requires
        0 < a < b < 253_402_300_800_000_000,
    ensures
        fields_before(instant_fields(a), instant_fields(b), 0),
{
    lemma_instant_split(a);
    lemma_instant_split(b);
    let sa = a / 1_000_000;
    let sb = b / 1_000_000;
    let da = sa / 86400;
    let db = sb / 86400;
    let x = instant_fields(a);
    let y = instant_fields(b);
    reveal_with_fuel(fields_before, 8);
    if da < db {
        lemma_date_of_days_order(da, db);
    } else {
        assert(da == db);
        if sa < sb {
            lemma_time_of_day_order(sa % 86400, sb % 86400);
        } else {
            assert(sa == sb);
            assert(a % 1_000_000 < b % 1_000_000);
        }
    }
}

/// The timestamp text sorts like the instants it names: for two instants
/// after the epoch and before 10000-01-01T00:00:00Z, the earlier one's text
/// comes first, character by character.
pub proof fn lemma_timestamp_order(a: int, b: int)
    requires
        0 < a < b < 253_402_300_800_000_000,
    ensures
        lex_lt(iso_timestamp(a), iso_timestamp(b)),
{
    lemma_instant_fields_fit(a);
    lemma_instant_fields_fit(b);
    lemma_instant_fields_order(a, b);
    lemma_iso_fields(a);
    lemma_iso_fields(b);
    let x = instant_fields(a);
    let y = instant_fields(b);
    let w = stamp_widths();
    assert(w.len() == 7 && stamp_separators().len() == 7);
    lemma_fields_text_order(x, y, w, stamp_separators(), 0);
}

} // verus!
