use vstd::prelude::*;

use crate::text::{decimal, decimal_string};

verus! {

/// How healthy a connection looks, as a pill or a dot shows it.
#[derive(Clone, Copy, Debug, PartialEq, Eq, Structural)]
pub enum StateTone {
    Good,
    Warn,
    Bad,
    Neutral,
}

/// The tone of a statistic tile.
#[derive(Clone, Copy, Debug, PartialEq, Eq, Structural)]
pub enum StatTone {
    Good,
    Warn,
    Bad,
    Info,
}

/// The tone of the small line under a statistic.
#[derive(Clone, Copy, Debug, PartialEq, Eq, Structural)]
pub enum DeltaTone {
    Good,
    Warn,
    Bad,
    Neutral,
}

/// The tone of the overview's health banner.
#[derive(Clone, Copy, Debug, PartialEq, Eq, Structural)]
pub enum HealthTone {
    Good,
    Warn,
    Bad,
}

/// Round trip (microseconds) from which a connection reads as slow.
pub const LATENCY_WARN_MICROS: i64 = 100_000;

/// Round trip (microseconds) from which a connection reads as bad.
pub const LATENCY_BAD_MICROS: i64 = 300_000;

/// The tone a reported round trip earns.
pub open spec fn latency_tone(micros: int) -> StateTone {
    if micros >= LATENCY_BAD_MICROS {
        StateTone::Bad
    } else if micros >= LATENCY_WARN_MICROS {
        StateTone::Warn
    } else {
        StateTone::Good
    }
}

/// A round trip reads as bad from 300 ms, slow from 100 ms up to that, and
/// good below.
pub proof fn lemma_latency_thresholds(micros: int)
    ensures
        latency_tone(micros) == (if micros >= 300_000 {
            StateTone::Bad
        } else if micros >= 100_000 {
            StateTone::Warn
        } else {
            StateTone::Good
        }),
{
}

pub fn classify_latency(micros: i64) -> (tone: StateTone)
    ensures
        tone == latency_tone(micros as int),
{
    if micros >= LATENCY_BAD_MICROS {
        StateTone::Bad
    } else if micros >= LATENCY_WARN_MICROS {
        StateTone::Warn
    } else {
        StateTone::Good
    }
}

pub open spec fn spec_tone_to_delta(tone: StatTone) -> DeltaTone {
    match tone {
        StatTone::Good => DeltaTone::Good,
        StatTone::Warn => DeltaTone::Warn,
        StatTone::Bad => DeltaTone::Bad,
        StatTone::Info => DeltaTone::Neutral,
    }
}

/// The tone of the line under a tile, following the tile's own.
pub fn tone_to_delta(tone: StatTone) -> (d: DeltaTone)
    ensures
        d == spec_tone_to_delta(tone),
{
    match tone {
        StatTone::Good => DeltaTone::Good,
        StatTone::Warn => DeltaTone::Warn,
        StatTone::Bad => DeltaTone::Bad,
        StatTone::Info => DeltaTone::Neutral,
    }
}

/// How many of `tones` are `t`.
pub open spec fn count_tone(tones: Seq<StateTone>, t: StateTone) -> nat
    decreases tones.len(),
{
    if tones.len() == 0 {
        0
    } else {
        count_tone(tones.drop_last(), t) + (if tones.last() == t { 1nat } else { 0nat })
    }
}

proof fn lemma_count_tone_le(tones: Seq<StateTone>, t: StateTone)
    ensures
        count_tone(tones, t) <= tones.len(),
    decreases tones.len(),
{
    if tones.len() > 0 {
        lemma_count_tone_le(tones.drop_last(), t);
    }
}

/// How many readers are healthy, slow and stalled.
pub fn reader_tone_counts(tones: &[StateTone]) -> (r: (usize, usize, usize))
    ensures
        r.0 == count_tone(tones@, StateTone::Good),
        r.1 == count_tone(tones@, StateTone::Warn),
        r.2 == count_tone(tones@, StateTone::Bad),
{
    let mut ok: usize = 0;
    let mut warn: usize = 0;
    let mut bad: usize = 0;
    let mut i: usize = 0;
    while i < tones.len()
        invariant
            i <= tones.len(),
            ok == count_tone(tones@.subrange(0, i as int), StateTone::Good),
            warn == count_tone(tones@.subrange(0, i as int), StateTone::Warn),
            bad == count_tone(tones@.subrange(0, i as int), StateTone::Bad),
        decreases tones.len() - i,
    {
        proof {
            let next = tones@.subrange(0, i + 1);
            assert(next.drop_last() =~= tones@.subrange(0, i as int));
            lemma_count_tone_le(tones@.subrange(0, i as int), StateTone::Good);
            lemma_count_tone_le(tones@.subrange(0, i as int), StateTone::Warn);
            lemma_count_tone_le(tones@.subrange(0, i as int), StateTone::Bad);
        }
        match tones[i] {
            StateTone::Good => ok = ok + 1,
            StateTone::Warn => warn = warn + 1,
            StateTone::Bad => bad = bad + 1,
            StateTone::Neutral => {},
        }
        i = i + 1;
    }
    proof {
        assert(tones@.subrange(0, tones@.len() as int) =~= tones@);
    }
    (ok, warn, bad)
}

/// The readers tile is bad when any reader is stalled, warns when any is slow.
pub open spec fn spec_reader_stat_tone(warn: int, bad: int) -> StatTone {
    if bad > 0 {
        StatTone::Bad
    } else if warn > 0 {
        StatTone::Warn
    } else {
        StatTone::Good
    }
}

pub fn reader_stat_tone(warn: usize, bad: usize) -> (t: StatTone)
    ensures
        t == spec_reader_stat_tone(warn as int, bad as int),
{
    if bad > 0 {
        StatTone::Bad
    } else if warn > 0 {
        StatTone::Warn
    } else {
        StatTone::Good
    }
}

/// `"<ok> ok · <warn> slow · <bad> stalled"`.
pub open spec fn spec_reader_counts_line(ok: nat, warn: nat, bad: nat) -> Seq<char> {
    decimal(ok) + " ok \u{b7} "@ + decimal(warn) + " slow \u{b7} "@ + decimal(bad) + " stalled"@
}

pub fn reader_counts_line(ok: usize, warn: usize, bad: usize) -> (s: String)
    ensures
        s@ == spec_reader_counts_line(ok as nat, warn as nat, bad as nat),
{
    let mut s = decimal_string(ok as u64);
    s.append(" ok \u{b7} ");
    s.append(decimal_string(warn as u64).as_str());
    s.append(" slow \u{b7} ");
    s.append(decimal_string(bad as u64).as_str());
    s.append(" stalled");
    s
}

/// The tone of the overview's banner and its two lines, for the readers' tones.
pub open spec fn spec_health(tones: Seq<StateTone>) -> (HealthTone, Seq<char>, Seq<char>) {
    let bad = count_tone(tones, StateTone::Bad);
    let warn = count_tone(tones, StateTone::Warn);
    if bad > 0 {
        (
            HealthTone::Bad,
            decimal(bad) + " connection"@ + (if bad == 1 { ""@ } else { "s"@ }) + " are stalled"@,
            "One or more reader streams have not received data for over 10 seconds."@,
        )
    } else if warn > 0 {
        (
            HealthTone::Warn,
            decimal(warn) + " connection"@ + (if warn == 1 { ""@ } else { "s"@ }) + " are slow"@,
            "Some reader streams are lagging behind the live window."@,
        )
    } else {
        (
            HealthTone::Good,
            "All systems nominal"@,
            "All writers and readers are sending data within expected windows."@,
        )
    }
}

/// The health banner of the overview: stalled readers first, then slow ones.
/// `reader_tones` holds the tone of each reader (not node) connection.
pub fn compute_health(reader_tones: &[StateTone]) -> (r: (HealthTone, String, String))
    ensures
        (r.0, r.1@, r.2@) == spec_health(reader_tones@),
{
    let (_ok, warn, bad) = reader_tone_counts(reader_tones);
    if bad > 0 {
        let mut headline = decimal_string(bad as u64);
        headline.append(" connection");
        headline.append(if bad == 1 { "" } else { "s" });
        headline.append(" are stalled");
        (
            HealthTone::Bad,
            headline,
            String::from_str("One or more reader streams have not received data for over 10 seconds."),
        )
    } else if warn > 0 {
        let mut headline = decimal_string(warn as u64);
        headline.append(" connection");
        headline.append(if warn == 1 { "" } else { "s" });
        headline.append(" are slow");
        (
            HealthTone::Warn,
            headline,
            String::from_str("Some reader streams are lagging behind the live window."),
        )
    } else {
        (
            HealthTone::Good,
            String::from_str("All systems nominal"),
            String::from_str("All writers and readers are sending data within expected windows."),
        )
    }
}

/// The readers whose tone is `t`, counted by filtering them out.
pub open spec fn with_tone(tones: Seq<StateTone>, t: StateTone) -> nat {
    tones.filter(|x: StateTone| x == t).len()
}

proof fn lemma_count_tone_filter(tones: Seq<StateTone>, t: StateTone)
    ensures
        count_tone(tones, t) == with_tone(tones, t),
        count_tone(tones, t) > 0 <==> tones.contains(t),
    decreases tones.len(),
{
    reveal(Seq::filter);
    if tones.len() > 0 {
        let rest = tones.drop_last();
        lemma_count_tone_filter(rest, t);
        assert(tones.filter(|x: StateTone| x == t) == (if tones.last() == t {
            rest.filter(|x: StateTone| x == t).push(tones.last())
        } else {
            rest.filter(|x: StateTone| x == t)
        }));
        if tones.contains(t) && tones.last() != t {
            let i = choose|i: int| 0 <= i < tones.len() && tones[i] == t;
            assert(rest[i] == t);
        }
        if rest.contains(t) {
            let i = choose|i: int| 0 <= i < rest.len() && rest[i] == t;
            assert(tones[i] == t);
        }
        if tones.last() == t {
            assert(tones[tones.len() - 1] == t);
        }
    } else {
        assert(!tones.contains(t));
    }
}

/// The health banner: when some reader is stalled, it is red and counts the
/// stalled readers; otherwise, when some reader is slow, it is yellow and
/// counts the slow ones; only when no reader is slow or stalled is it green.
pub proof fn lemma_health_banner(tones: Seq<StateTone>)
    ensures
        tones.contains(StateTone::Bad) ==> {
            let n = with_tone(tones, StateTone::Bad);
            &&& spec_health(tones).0 == HealthTone::Bad
            &&& spec_health(tones).1 == decimal(n) + (if n == 1 {
                " connection are stalled"@
            } else {
                " connections are stalled"@
            })
            &&& spec_health(tones).2
                == "One or more reader streams have not received data for over 10 seconds."@
        },
        !tones.contains(StateTone::Bad) && tones.contains(StateTone::Warn) ==> {
            let n = with_tone(tones, StateTone::Warn);
            &&& spec_health(tones).0 == HealthTone::Warn
            &&& spec_health(tones).1 == decimal(n) + (if n == 1 {
                " connection are slow"@
            } else {
                " connections are slow"@
            })
            &&& spec_health(tones).2 == "Some reader streams are lagging behind the live window."@
        },
        !tones.contains(StateTone::Bad) && !tones.contains(StateTone::Warn) ==> {
            &&& spec_health(tones).0 == HealthTone::Good
            &&& spec_health(tones).1 == "All systems nominal"@
            &&& spec_health(tones).2
                == "All writers and readers are sending data within expected windows."@
        },
        spec_health(tones).0 == HealthTone::Good <==> !tones.contains(StateTone::Bad)
            && !tones.contains(StateTone::Warn),
{
    lemma_count_tone_filter(tones, StateTone::Bad);
    lemma_count_tone_filter(tones, StateTone::Warn);
    reveal_strlit(" connection");
    reveal_strlit("");
    reveal_strlit("s");
    reveal_strlit(" are stalled");
    reveal_strlit(" are slow");
    reveal_strlit(" connection are stalled");
    reveal_strlit(" connections are stalled");
    reveal_strlit(" connection are slow");
    reveal_strlit(" connections are slow");
    let h = spec_health(tones);
    let b = with_tone(tones, StateTone::Bad);
    let w = with_tone(tones, StateTone::Warn);
    if b > 0 {
        assert(h.1 =~= decimal(b) + (if b == 1 {
            " connection are stalled"@
        } else {
            " connections are stalled"@
        }));
    } else if w > 0 {
        assert(h.1 =~= decimal(w) + (if w == 1 {
            " connection are slow"@
        } else {
            " connections are slow"@
        }));
    }
}

/// The state a writer's pill names for its tone.
pub open spec fn spec_writer_state_label(tone: StateTone) -> Seq<char> {
    match tone {
        StateTone::Good => "live"@,
        StateTone::Warn => "lagging"@,
        StateTone::Bad => "stalled"@,
        StateTone::Neutral => "\u{2014}"@,
    }
}

pub fn writer_state_label(tone: StateTone) -> (s: &'static str)
    ensures
        s@ == spec_writer_state_label(tone),
{
    match tone {
        StateTone::Good => "live",
        StateTone::Warn => "lagging",
        StateTone::Bad => "stalled",
        StateTone::Neutral => "\u{2014}",
    }
}

/// The unit a byte count is shown in.
#[derive(Clone, Copy, Debug, PartialEq, Eq, Structural)]
pub enum SizeUnit {
    Bytes,
    Kilo,
    Mega,
    Giga,
}

/// Bytes below 1024, then each larger unit while the scaled value is below 1024.
pub open spec fn spec_size_unit(n: int) -> SizeUnit {
    if n < 1024 {
        SizeUnit::Bytes
    } else if n < 1024 * 1024 {
        SizeUnit::Kilo
    } else if n < 1024 * 1024 * 1024 {
        SizeUnit::Mega
    } else {
        SizeUnit::Giga
    }
}

/// The unit `format_bytes` shows `n` bytes in. The thresholds are powers of
/// two, so comparing the count converted to `f64` and divided by 1024 gives
/// the same answer as comparing the count itself.
pub fn size_unit(n: u64) -> (u: SizeUnit)
    ensures
        u == spec_size_unit(n as int),
{
    if n < 1024 {
        SizeUnit::Bytes
    } else if n < 1024 * 1024 {
        SizeUnit::Kilo
    } else if n < 1024 * 1024 * 1024 {
        SizeUnit::Mega
    } else {
        SizeUnit::Giga
    }
}

/// The unit a duration in microseconds is shown in.
#[derive(Clone, Copy, Debug, PartialEq, Eq, Structural)]
pub enum DurationUnit {
    Zero,
    Micros,
    Millis,
    Seconds,
}

pub open spec fn spec_duration_unit(micros: int) -> DurationUnit {
    if micros == 0 {
        DurationUnit::Zero
    } else if micros < 1000 {
        DurationUnit::Micros
    } else if micros < 1_000_000 {
        DurationUnit::Millis
    } else {
        DurationUnit::Seconds
    }
}

/// The unit `format_duration` shows a whole number of microseconds in.
pub fn duration_unit(micros: i64) -> (u: DurationUnit)
    ensures
        u == spec_duration_unit(micros as int),
{
    if micros == 0 {
        DurationUnit::Zero
    } else if micros < 1000 {
        DurationUnit::Micros
    } else if micros < 1_000_000 {
        DurationUnit::Millis
    } else {
        DurationUnit::Seconds
    }
}

/// The magnitude suffix of a compact count.
#[derive(Clone, Copy, Debug, PartialEq, Eq, Structural)]
pub enum CompactUnit {
    Plain,
    Thousands,
    Millions,
    Billions,
}

pub open spec fn spec_compact_unit(n: int) -> CompactUnit {
    if n >= 1_000_000_000 {
        CompactUnit::Billions
    } else if n >= 1_000_000 {
        CompactUnit::Millions
    } else if n >= 1_000 {
        CompactUnit::Thousands
    } else {
        CompactUnit::Plain
    }
}

/// The suffix `format_compact` gives `n` (`B`, `M`, `K`, or none).
pub fn compact_unit(n: u64) -> (u: CompactUnit)
    ensures
        u == spec_compact_unit(n as int),
{
    if n >= 1_000_000_000 {
        CompactUnit::Billions
    } else if n >= 1_000_000 {
        CompactUnit::Millions
    } else if n >= 1_000 {
        CompactUnit::Thousands
    } else {
        CompactUnit::Plain
    }
}

} // verus!
